//! The tile renderer: one styled character for every tile of the sampling
//! grid, and the text that the characters make up.

use crate::colors::{Ansi, Colour, Monochrome, Rgb24, Rgb565};
use crate::dominant::{lemma_uniform_block, pixel_count, primary, summary, two_most_dominant};
use crate::edges::same_size;
use crate::glyphs::{
    lemma_dark_block, mean_brightness, mean_luma, pick_glyph, shown_glyph, GLYPHS,
};
use crate::raster::{lemma_tile_len, lemma_uniform_tile, Raster, RasterView};
use crate::tiles::{
    count_tiles, lemma_tile_count, lemma_tile_span, tile_count, tile_end, tile_span, tile_start,
};
use crate::{ColourDepth, RenderError};
use owo_colors::OwoColorize;
use rayon::iter::{IntoParallelIterator, ParallelIterator};
use vstd::prelude::*;

verus! {

/// How an image is sampled and shown.
#[derive(Copy, Clone, Debug)]
pub struct Settings {
    /// The width of a tile in pixels.
    pub sample_width: u32,
    /// The height of a tile in pixels.
    pub sample_height: u32,
    /// The colour depth that the colours of a cell are taken through.
    pub depth: ColourDepth,
    /// Sample the colours from the edge map in place of the image.
    pub show_edges: bool,
    /// Draw one colour a cell and no background.
    pub no_background: bool,
}

/// One cell of the output: a glyph, its colour and, where one is drawn, the
/// colour behind it.
#[derive(Copy, Clone, Debug, PartialEq, Eq, Structural)]
pub struct RenderCell {
    pub glyph: char,
    pub foreground: Rgb24,
    pub background: Option<Rgb24>,
}

/// A colour quantized to a depth and expanded again.
/// `ColourDepth::Unquantized` leaves the colour as it is.
pub open spec fn through_depth(depth: ColourDepth, colour: Rgb24) -> Rgb24 {
    match depth {
        ColourDepth::Grayscale => Monochrome::quantized(colour).expanded(),
        ColourDepth::Rgb24 => Rgb24::quantized(colour).expanded(),
        ColourDepth::Rgb16 => Rgb565::quantized(colour).expanded(),
        ColourDepth::Ansi => Ansi::quantized(colour).expanded(),
        ColourDepth::Unquantized => colour,
    }
}

/// The colours of a cell, foreground first. With a depth, the background is
/// the primary colour and the foreground the summary, each taken through the
/// depth; without a background the primary colour is the foreground. With
/// `ColourDepth::Unquantized` the foreground is black and the background white.
pub open spec fn cell_colours(
    depth: ColourDepth,
    primary: Rgb24,
    secondary: Rgb24,
    no_background: bool,
) -> (Rgb24, Option<Rgb24>) {
    if depth == ColourDepth::Unquantized {
        (
            Rgb24 { r: 0, g: 0, b: 0 },
            if no_background {
                None
            } else {
                Some(Rgb24 { r: 255, g: 255, b: 255 })
            },
        )
    } else if no_background {
        (through_depth(depth, primary), None)
    } else {
        (through_depth(depth, secondary), Some(through_depth(depth, primary)))
    }
}

/// The image can be cut into tiles and has an edge map of its size.
pub open spec fn grid_ready(image: RasterView, edges: RasterView, settings: Settings) -> bool {
    &&& image.wf()
    &&& edges.wf()
    &&& same_size(image, edges)
    &&& settings.sample_width > 0
    &&& settings.sample_height > 0
    &&& image.width > 0
    &&& image.height > 0
}

/// The number of columns of the grid.
pub open spec fn columns(image: RasterView, settings: Settings) -> int {
    tile_count(image.width as int, settings.sample_width as int)
}

/// The number of rows of the grid.
pub open spec fn rows(image: RasterView, settings: Settings) -> int {
    tile_count(image.height as int, settings.sample_height as int)
}

/// The cell for the tile at a column and a row of the grid.
pub open spec fn cell(
    image: RasterView,
    edges: RasterView,
    settings: Settings,
    column: int,
    row: int,
) -> RenderCell {
    let x0 = tile_start(column, settings.sample_width as int);
    let x1 = tile_end(column, settings.sample_width as int, image.width as int);
    let y0 = tile_start(row, settings.sample_height as int);
    let y1 = tile_end(row, settings.sample_height as int, image.height as int);
    let edge_sample = edges.tile(x0, x1, y0, y1);
    let sample = if settings.show_edges {
        edge_sample
    } else {
        image.tile(x0, x1, y0, y1)
    };
    let colours = cell_colours(
        settings.depth,
        primary(sample),
        summary(sample),
        settings.no_background,
    );
    RenderCell {
        glyph: shown_glyph(mean_luma(edge_sample) as int, settings.no_background),
        foreground: colours.0,
        background: colours.1,
    }
}

/// The cell at a place in the grid, the places counted row after row.
pub open spec fn cell_at(
    image: RasterView,
    edges: RasterView,
    settings: Settings,
    index: int,
) -> RenderCell {
    cell(image, edges, settings, index % columns(image, settings), index / columns(image, settings))
}

/// The cells of the grid, row after row.
pub open spec fn cells(image: RasterView, edges: RasterView, settings: Settings) -> Seq<
    RenderCell,
> {
    Seq::new(
        (columns(image, settings) * rows(image, settings)) as nat,
        |index: int| cell_at(image, edges, settings, index),
    )
}

/// The decimal digits of a byte, without leading zeros.
pub open spec fn decimal(value: u8) -> Seq<char> {
    let ones = (48 + value % 10) as u8 as char;
    let tens = (48 + (value / 10) % 10) as u8 as char;
    let hundreds = (48 + value / 100) as u8 as char;
    if value < 10 {
        seq![ones]
    } else if value < 100 {
        seq![tens, ones]
    } else {
        seq![hundreds, tens, ones]
    }
}

/// The three channels of a colour in decimal, with `;` between them.
pub open spec fn channels(colour: Rgb24) -> Seq<char> {
    decimal(colour.r) + seq![';'] + decimal(colour.g) + seq![';'] + decimal(colour.b)
}

/// The escape sequence that sets the foreground colour.
pub open spec fn set_foreground(colour: Rgb24) -> Seq<char> {
    seq!['\x1b', '[', '3', '8', ';', '2', ';'] + channels(colour) + seq!['m']
}

/// The escape sequence that sets the background colour.
pub open spec fn set_background(colour: Rgb24) -> Seq<char> {
    seq!['\x1b', '[', '4', '8', ';', '2', ';'] + channels(colour) + seq!['m']
}

/// The escape sequence that puts the foreground colour back.
pub open spec fn reset_foreground() -> Seq<char> {
    seq!['\x1b', '[', '3', '9', 'm']
}

/// The escape sequence that puts the background colour back.
pub open spec fn reset_background() -> Seq<char> {
    seq!['\x1b', '[', '4', '9', 'm']
}

/// A glyph in a foreground colour.
pub open spec fn painted(glyph: char, foreground: Rgb24) -> Seq<char> {
    set_foreground(foreground) + seq![glyph] + reset_foreground()
}

/// A text on a background colour.
pub open spec fn backed(text: Seq<char>, background: Rgb24) -> Seq<char> {
    set_background(background) + text + reset_background()
}

/// The text of one cell.
pub open spec fn cell_text(cell: RenderCell) -> Seq<char> {
    match cell.background {
        Some(background) => backed(painted(cell.glyph, cell.foreground), background),
        None => painted(cell.glyph, cell.foreground),
    }
}

/// The text of the first `n` cells of a grid of so many columns: the cells
/// one after the other, with a line feed after the last cell of each row.
pub open spec fn text_of(cells: Seq<RenderCell>, columns: int, n: nat) -> Seq<char>
    decreases n,
{
    if n == 0 {
        Seq::empty()
    } else {
        text_of(cells, columns, (n - 1) as nat) + cell_text(cells[n - 1]) + if n % (columns as nat)
            == 0 {
            seq!['\n']
        } else {
            Seq::empty()
        }
    }
}

/// Why an image cannot be rendered, if it cannot: first the sample size is
/// looked at, then the image, then the edge map.
pub open spec fn failure(image: RasterView, edges: RasterView, settings: Settings) -> Option<
    RenderError,
> {
    if settings.sample_width == 0 || settings.sample_height == 0 {
        Some(RenderError::InvalidConfiguration)
    } else if image.width == 0 || image.height == 0 {
        Some(RenderError::EmptyImage)
    } else if !same_size(image, edges) {
        Some(RenderError::BufferConstructionFailure)
    } else {
        None
    }
}

/// The text that an image is rendered to.
pub open spec fn rendered(image: RasterView, edges: RasterView, settings: Settings) -> Seq<char> {
    let all = cells(image, edges, settings);
    text_of(all, columns(image, settings), all.len())
}

/// A colour quantized to a depth and expanded again.
pub fn quantize(depth: ColourDepth, colour: Rgb24) -> (seen: Rgb24)
    ensures
        seen == through_depth(depth, colour),
{
    let rgb = (colour.r, colour.g, colour.b);
    let (r, g, b) = match depth {
        ColourDepth::Grayscale => Monochrome::from_rgb8(rgb).into_rgb(),
        ColourDepth::Rgb24 => Rgb24::from_rgb8(rgb).into_rgb(),
        ColourDepth::Rgb16 => Rgb565::from_rgb8(rgb).into_rgb(),
        ColourDepth::Ansi => Ansi::from_rgb8(rgb).into_rgb(),
        ColourDepth::Unquantized => rgb,
    };
    Rgb24 { r, g, b }
}

/// The colours of a cell, foreground first.
pub fn style(depth: ColourDepth, primary: Rgb24, secondary: Rgb24, no_background: bool) -> (colours:
    (Rgb24, Option<Rgb24>))
    ensures
        colours == cell_colours(depth, primary, secondary, no_background),
{
    match depth {
        ColourDepth::Unquantized => {
            let black = Rgb24 { r: 0, g: 0, b: 0 };
            if no_background {
                (black, None)
            } else {
                (black, Some(Rgb24 { r: 255, g: 255, b: 255 }))
            }
        },
        _ => {
            if no_background {
                (quantize(depth, primary), None)
            } else {
                (quantize(depth, secondary), Some(quantize(depth, primary)))
            }
        },
    }
}

/// A place of the grid lies in one of its columns and one of its rows.
pub proof fn lemma_place(index: int, columns: int, rows: int)
    requires
        0 <= index < columns * rows,
        0 < columns,
    ensures
        0 <= index % columns < columns,
        0 <= index / columns < rows,
{
    vstd::arithmetic::div_mod::lemma_fundamental_div_mod(index, columns);
    vstd::arithmetic::div_mod::lemma_mod_bound(index, columns);
    let q = index / columns;
    assert(columns * q <= index < columns * rows);
    assert(q < rows) by (nonlinear_arith)
        requires
            columns * q < columns * rows,
            columns > 0,
    ;
    assert(q >= 0) by (nonlinear_arith)
        requires
            columns * q + index % columns == index,
            0 <= index,
            index % columns < columns,
            columns > 0,
    ;
}

/// The cell at a place of the grid, the places counted row after row.
pub fn render_cell(image: &Raster, edges: &Raster, settings: &Settings, index: usize) -> (cell:
    RenderCell)
    requires
        grid_ready(image@, edges@, *settings),
        index < columns(image@, *settings) * rows(image@, *settings),
    ensures
        cell == cell_at(image@, edges@, *settings, index as int),
{
    let width = image.width();
    let height = image.height();
    let across = count_tiles(width, settings.sample_width);
    proof {
        lemma_tile_count(width as int, settings.sample_width as int);
        lemma_tile_count(height as int, settings.sample_height as int);
        lemma_place(index as int, columns(image@, *settings), rows(image@, *settings));
    }
    let column = (index % across as usize) as u32;
    let row = (index / across as usize) as u32;
    let (x0, x1) = tile_span(column, settings.sample_width, width);
    let (y0, y1) = tile_span(row, settings.sample_height, height);
    proof {
        lemma_tile_len(edges@, x0 as int, x1 as int, y0 as int, y1 as int);
        lemma_tile_len(image@, x0 as int, x1 as int, y0 as int, y1 as int);
        assert((y1 - y0) * (x1 - x0) * 3 >= 3) by (nonlinear_arith)
            requires
                y1 - y0 >= 1,
                x1 - x0 >= 1,
        ;
    }
    let edge_sample = edges.crop(x0, x1, y0, y1);
    let pair = if settings.show_edges {
        two_most_dominant(edge_sample.as_slice())
    } else {
        let sample = image.crop(x0, x1, y0, y1);
        two_most_dominant(sample.as_slice())
    };
    let (foreground, background) = style(
        settings.depth,
        pair[0],
        pair[1],
        settings.no_background,
    );
    let brightness = mean_brightness(edge_sample.as_slice());
    RenderCell { glyph: pick_glyph(brightness, settings.no_background), foreground, background }
}

/// Calls `rayon`'s `into_par_iter` on the range of places, `map` with a
/// closure that is one call of `render_cell`, and `collect` into a vector.
///
/// Trusted: `rayon` calls the closure once for each place, whatever thread
/// does the work, and `collect` on an indexed parallel iterator keeps the
/// results in the order of the places. What each call returns is what the
/// contract of `render_cell` states.
#[verifier::external_body]
fn cells_in_parallel(image: &Raster, edges: &Raster, settings: &Settings, count: usize) -> (all:
    Vec<RenderCell>)
    requires
        grid_ready(image@, edges@, *settings),
        count == columns(image@, *settings) * rows(image@, *settings),
    ensures
        all@ == cells(image@, edges@, *settings),
{
    (0..count).into_par_iter().map(|index| render_cell(image, edges, settings, index)).collect()
}

/// Calls `owo_colors::OwoColorize::truecolor` on the glyph and formats what
/// comes back.
///
/// Trusted: the result is `ESC [ 38 ; 2 ; r ; g ; b m`, the three channels in
/// decimal, then the glyph, then `ESC [ 39 m`.
#[verifier::external_body]
fn paint(glyph: char, foreground: Rgb24) -> (text: String)
    ensures
        text@ == painted(glyph, foreground),
{
    format!("{}", glyph.truecolor(foreground.r, foreground.g, foreground.b))
}

/// Calls `owo_colors::OwoColorize::on_truecolor` on the text and formats what
/// comes back.
///
/// Trusted: the result is `ESC [ 48 ; 2 ; r ; g ; b m`, the three channels in
/// decimal, then the text, then `ESC [ 49 m`.
#[verifier::external_body]
fn paint_behind(text: &String, background: Rgb24) -> (backed_text: String)
    ensures
        backed_text@ == backed(text@, background),
{
    format!("{}", text.on_truecolor(background.r, background.g, background.b))
}

/// The text of one cell.
pub fn format_cell(cell: &RenderCell) -> (text: String)
    ensures
        text@ == cell_text(*cell),
{
    let glyph = paint(cell.glyph, cell.foreground);
    match cell.background {
        Some(background) => paint_behind(&glyph, background),
        None => glyph,
    }
}

/// The text of the cells of a grid of so many columns.
pub fn compose(all: &Vec<RenderCell>, across: usize) -> (text: String)
    requires
        across > 0,
    ensures
        text@ == text_of(all@, across as int, all@.len()),
{
    let mut text = String::new();
    let mut i: usize = 0;
    while i < all.len()
        invariant
            i <= all.len(),
            across > 0,
            text@ == text_of(all@, across as int, i as nat),
        decreases all.len() - i,
    {
        let one = format_cell(&all[i]);
        text.append(one.as_str());
        i += 1;
        if i % across == 0 {
            proof {
                reveal_strlit("\n");
                assert("\n"@ =~= seq!['\n']);
            }
            text.append("\n");
        }
    }
    text
}

/// The cells that an image is rendered to, row after row: as many as the
/// grid has tiles. Fails as `failure` says.
pub fn render_cells(image: &Raster, edge_map: &Raster, settings: &Settings) -> (all: Result<
    Vec<RenderCell>,
    RenderError,
>)
    ensures
        match failure(image@, edge_map@, *settings) {
            Some(error) => all == Err::<Vec<RenderCell>, RenderError>(error),
            None => all matches Ok(found) && found@ == cells(image@, edge_map@, *settings)
                && found@.len() == tile_count(
                image@.width as int,
                settings.sample_width as int,
            ) * tile_count(image@.height as int, settings.sample_height as int),
        },
{
    if settings.sample_width == 0 || settings.sample_height == 0 {
        return Err(RenderError::InvalidConfiguration);
    }
    let width = image.width();
    let height = image.height();
    if width == 0 || height == 0 {
        return Err(RenderError::EmptyImage);
    }
    if edge_map.width() != width || edge_map.height() != height {
        return Err(RenderError::BufferConstructionFailure);
    }
    let across = count_tiles(width, settings.sample_width);
    let down = count_tiles(height, settings.sample_height);
    let bytes = image.as_bytes();
    proof {
        lemma_tile_count(width as int, settings.sample_width as int);
        lemma_tile_count(height as int, settings.sample_height as int);
        assert(across * down <= width * height) by (nonlinear_arith)
            requires
                0 <= across <= width,
                0 <= down <= height,
        ;
        assert(width * height * 3 == bytes.len());
    }
    let count: usize = across as usize * down as usize;
    Ok(cells_in_parallel(image, edge_map, settings, count))
}

/// Renders an image with its edge map: one styled character for each tile of
/// the grid, a line feed after each row of tiles. Fails as `failure` says,
/// first of all where the sample width or the sample height is zero.
pub fn render(
    image: &Raster,
    edge_map: &Raster,
    sample_width: u32,
    sample_height: u32,
    depth: ColourDepth,
    show_edges: bool,
    no_background: bool,
) -> (text: Result<String, RenderError>)
    ensures
        ({
            let settings = Settings {
                sample_width,
                sample_height,
                depth,
                show_edges,
                no_background,
            };
            match failure(image@, edge_map@, settings) {
                Some(error) => text matches Err(e) && e == error,
                None => text matches Ok(made) && made@ == rendered(image@, edge_map@, settings),
            }
        }),
        sample_width == 0 || sample_height == 0 ==> text == Err::<String, RenderError>(
            RenderError::InvalidConfiguration,
        ),
{
    let settings = Settings { sample_width, sample_height, depth, show_edges, no_background };
    match render_cells(image, edge_map, &settings) {
        Ok(all) => {
            let across = count_tiles(image.width(), sample_width);
            proof {
                lemma_tile_count(image@.width as int, sample_width as int);
            }
            Ok(compose(&all, across as usize))
        },
        Err(error) => Err(error),
    }
}

/// The grid has a cell for every tile: as many as the width over the sample
/// width, rounded up, times the height over the sample height, rounded up.
pub proof fn lemma_grid_size(image: RasterView, edges: RasterView, settings: Settings)
    requires
        settings.sample_width > 0,
        settings.sample_height > 0,
    ensures
        cells(image, edges, settings).len() == tile_count(
            image.width as int,
            settings.sample_width as int,
        ) * tile_count(image.height as int, settings.sample_height as int),
{
    lemma_tile_count(image.width as int, settings.sample_width as int);
    lemma_tile_count(image.height as int, settings.sample_height as int);
    let across = columns(image, settings);
    let down = rows(image, settings);
    assert(across * down >= 0) by (nonlinear_arith)
        requires
            across >= 0,
            down >= 0,
    ;
}

/// The tile of a place of the grid lies inside the image and holds at least
/// one pixel.
pub proof fn lemma_tile_inside(image: RasterView, settings: Settings, index: int)
    requires
        settings.sample_width > 0,
        settings.sample_height > 0,
        0 <= index < columns(image, settings) * rows(image, settings),
    ensures
        ({
            let column = index % columns(image, settings);
            let row = index / columns(image, settings);
            let x0 = tile_start(column, settings.sample_width as int);
            let x1 = tile_end(column, settings.sample_width as int, image.width as int);
            let y0 = tile_start(row, settings.sample_height as int);
            let y1 = tile_end(row, settings.sample_height as int, image.height as int);
            &&& 0 <= x0 < x1 <= image.width
            &&& 0 <= y0 < y1 <= image.height
            &&& 1 <= (y1 - y0) * (x1 - x0)
        }),
{
    let across = columns(image, settings);
    let down = rows(image, settings);
    lemma_tile_count(image.width as int, settings.sample_width as int);
    lemma_tile_count(image.height as int, settings.sample_height as int);
    assert(across > 0) by (nonlinear_arith)
        requires
            0 <= index < across * down,
            across >= 0,
    ;
    lemma_place(index, across, down);
    let column = index % across;
    let row = index / across;
    lemma_tile_span(column, settings.sample_width as int, image.width as int);
    lemma_tile_span(row, settings.sample_height as int, image.height as int);
    let x0 = tile_start(column, settings.sample_width as int);
    let x1 = tile_end(column, settings.sample_width as int, image.width as int);
    let y0 = tile_start(row, settings.sample_height as int);
    let y1 = tile_end(row, settings.sample_height as int, image.height as int);
    assert(1 <= (y1 - y0) * (x1 - x0)) by (nonlinear_arith)
        requires
            y1 - y0 >= 1,
            x1 - x0 >= 1,
    ;
}

/// Where the edge map is black throughout, every cell shows the first glyph
/// of the ramp, or the second where no background is drawn.
pub proof fn lemma_no_edges_first_glyph(
    image: RasterView,
    edges: RasterView,
    settings: Settings,
    index: int,
)
    requires
        grid_ready(image, edges, settings),
        edges.is_uniform(Rgb24 { r: 0, g: 0, b: 0 }),
        0 <= index < columns(image, settings) * rows(image, settings),
    ensures
        cell_at(image, edges, settings, index).glyph == if settings.no_background {
            GLYPHS[1]
        } else {
            GLYPHS[0]
        },
{
    let column = index % columns(image, settings);
    let row = index / columns(image, settings);
    let x0 = tile_start(column, settings.sample_width as int);
    let x1 = tile_end(column, settings.sample_width as int, image.width as int);
    let y0 = tile_start(row, settings.sample_height as int);
    let y1 = tile_end(row, settings.sample_height as int, image.height as int);
    lemma_tile_inside(image, settings, index);
    let sample = edges.tile(x0, x1, y0, y1);
    let n = (y1 - y0) * (x1 - x0);
    lemma_tile_len(edges, x0, x1, y0, y1);
    lemma_uniform_tile(edges, Rgb24 { r: 0, g: 0, b: 0 }, x0, x1, y0, y1);
    assert(pixel_count(sample) == n);
    lemma_dark_block(sample, n as nat);
    assert(mean_luma(sample) == 0) by (nonlinear_arith)
        requires
            mean_luma(sample) == 0int / n,
            n >= 1,
    ;
}

/// Where the image has one colour throughout and the colours are sampled from
/// it, every cell has the colours that this one colour gives.
pub proof fn lemma_uniform_image_colours(
    image: RasterView,
    edges: RasterView,
    settings: Settings,
    colour: Rgb24,
    index: int,
)
    requires
        grid_ready(image, edges, settings),
        image.is_uniform(colour),
        !settings.show_edges,
        0 <= index < columns(image, settings) * rows(image, settings),
    ensures
        ({
            let cell = cell_at(image, edges, settings, index);
            (cell.foreground, cell.background) == cell_colours(
                settings.depth,
                colour,
                colour,
                settings.no_background,
            )
        }),
{
    let column = index % columns(image, settings);
    let row = index / columns(image, settings);
    let x0 = tile_start(column, settings.sample_width as int);
    let x1 = tile_end(column, settings.sample_width as int, image.width as int);
    let y0 = tile_start(row, settings.sample_height as int);
    let y1 = tile_end(row, settings.sample_height as int, image.height as int);
    lemma_tile_inside(image, settings, index);
    let sample = image.tile(x0, x1, y0, y1);
    lemma_tile_len(image, x0, x1, y0, y1);
    lemma_uniform_tile(image, colour, x0, x1, y0, y1);
    assert(pixel_count(sample) == (y1 - y0) * (x1 - x0));
    lemma_uniform_block(sample, colour);
}

} // verus!
