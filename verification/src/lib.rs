//! Turns a decoded image into a grid of coloured characters.

pub mod colors;
pub mod decode;
pub mod dominant;
pub mod edges;
pub mod glyphs;
pub mod raster;
pub mod render;
pub mod tiles;

use crate::edges::{edge_bytes, edge_map, lemma_equal_copies_have_no_edges, same_size};
use crate::glyphs::GLYPHS;
use crate::raster::{Raster, RasterView};
use crate::render::{
    cell_at, columns, failure, grid_ready, lemma_no_edges_first_glyph, render, rendered, rows,
    Settings,
};
use vstd::prelude::*;

verus! {

/// The colour depths that the colours of a cell can be taken through.
#[derive(Copy, Clone, Debug, PartialEq, Eq, PartialOrd, Ord, Structural)]
pub enum ColourDepth {
    Grayscale,
    Rgb24,
    Rgb16,
    Ansi,
    Unquantized,
}

/// Why a rendering failed.
#[derive(Debug)]
pub enum RenderError {
    /// The sample width or the sample height is zero.
    InvalidConfiguration,
    /// The decoder refused the bytes of the image: its own error.
    DecodeFailure(image::ImageError),
    /// The image has no pixels.
    EmptyImage,
    /// The image, its blurred copies and its edge map are not all of one
    /// size.
    BufferConstructionFailure,
}

/// The edge map that two blurred copies give.
pub open spec fn edges_of(narrow: RasterView, wide: RasterView) -> RasterView {
    RasterView {
        width: narrow.width,
        height: narrow.height,
        pixels: edge_bytes(narrow.pixels, wide.pixels),
    }
}

/// Turns an image into text, given two copies of it blurred with two radii.
/// The edge map is made from the two copies, then the image is rendered with
/// it. Fails with `BufferConstructionFailure` where the copies differ in
/// size, and else as `render` does.
pub fn into_ascii_controlled(
    image: &Raster,
    blurred: (&Raster, &Raster),
    sample: (u32, u32),
    no_background: bool,
    show_edges: bool,
    depth: ColourDepth,
) -> (text: Result<String, RenderError>)
    ensures
        ({
            let settings = Settings {
                sample_width: sample.0,
                sample_height: sample.1,
                depth,
                show_edges,
                no_background,
            };
            let edges = edges_of(blurred.0@, blurred.1@);
            if !same_size(blurred.0@, blurred.1@) {
                text matches Err(e) && e == RenderError::BufferConstructionFailure
            } else {
                match failure(image@, edges, settings) {
                    Some(error) => text matches Err(e) && e == error,
                    None => text matches Ok(made) && made@ == rendered(image@, edges, settings),
                }
            }
        }),
{
    let (narrow, wide) = blurred;
    let (sample_width, sample_height) = sample;
    match edge_map(narrow, wide) {
        Ok(edges) => render(
            image,
            &edges,
            sample_width,
            sample_height,
            depth,
            show_edges,
            no_background,
        ),
        Err(error) => Err(error),
    }
}

/// Where the two blurred copies of an image are equal, as they are where
/// the blur leaves the image as it is, no edge is found: every cell shows the
/// first glyph of the ramp, or the second where no background is drawn.
pub proof fn lemma_equal_copies_first_glyph(
    image: RasterView,
    copy: RasterView,
    settings: Settings,
    index: int,
)
    requires
        copy.wf(),
        grid_ready(image, edges_of(copy, copy), settings),
        0 <= index < columns(image, settings) * rows(image, settings),
    ensures
        cell_at(image, edges_of(copy, copy), settings, index).glyph == if settings.no_background {
            GLYPHS[1]
        } else {
            GLYPHS[0]
        },
{
    lemma_equal_copies_have_no_edges(copy);
    lemma_no_edges_first_glyph(image, edges_of(copy, copy), settings, index);
}

} // verus!
