use apixels::colors::Rgb24;
use apixels::edges::{edge_map, edge_strength};
use apixels::glyphs::{mean_brightness, pick_glyph, GLYPHS};
use apixels::raster::Raster;
use apixels::render::{
    compose, format_cell, quantize, render, render_cell, render_cells, style, RenderCell,
    Settings,
};
use apixels::tiles::{count_tiles, tile_span};
use apixels::{into_ascii_controlled, ColourDepth, RenderError};

fn solid(width: u32, height: u32, colour: (u8, u8, u8)) -> Raster {
    let mut bytes = Vec::new();
    for _ in 0..width * height {
        bytes.extend_from_slice(&[colour.0, colour.1, colour.2]);
    }
    Raster::new(width, height, bytes).unwrap()
}

fn gradient(width: u32, height: u32) -> Raster {
    let mut bytes = Vec::new();
    for y in 0..height {
        for x in 0..width {
            bytes.extend_from_slice(&[(x * 40) as u8, (y * 50) as u8, ((x + y) * 20) as u8]);
        }
    }
    Raster::new(width, height, bytes).unwrap()
}

fn blur(raster: &Raster, sigma: f32) -> Raster {
    let img =
        image::RgbImage::from_raw(raster.width(), raster.height(), raster.as_bytes().to_vec())
            .unwrap();
    let out = image::imageops::blur(&img, sigma);
    Raster::new(out.width(), out.height(), out.into_raw()).unwrap()
}

fn settings(sw: u32, sh: u32, depth: ColourDepth, show_edges: bool, no_background: bool) -> Settings {
    Settings { sample_width: sw, sample_height: sh, depth, show_edges, no_background }
}

#[test]
fn raster_checks_its_size() {
    assert!(Raster::new(2, 2, vec![0; 12]).is_some());
    assert!(Raster::new(2, 2, vec![0; 11]).is_none());
    assert!(Raster::new(2, 2, vec![0; 16]).is_none());
    assert!(Raster::new(0, 5, vec![]).is_some());
    let r = Raster::new(3, 1, vec![1, 2, 3, 4, 5, 6, 7, 8, 9]).unwrap();
    assert_eq!((r.width(), r.height()), (3, 1));
    assert_eq!(r.as_bytes(), &[1, 2, 3, 4, 5, 6, 7, 8, 9]);
}

#[test]
fn raster_from_rgba_drops_alpha() {
    let r = Raster::from_rgba(2, 1, &[1, 2, 3, 255, 4, 5, 6, 0]).unwrap();
    assert_eq!(r.as_bytes(), &[1, 2, 3, 4, 5, 6]);
    assert!(Raster::from_rgba(2, 1, &[1, 2, 3, 4, 5, 6]).is_none());
    assert!(Raster::from_rgba(0, 0, &[]).is_some());
}

#[test]
fn crop_takes_the_rectangle_row_after_row() {
    let r = gradient(3, 2);
    assert_eq!(r.crop(0, 3, 0, 2), r.as_bytes().to_vec());
    assert_eq!(r.crop(1, 3, 1, 2), vec![40, 50, 40, 80, 50, 60]);
    assert_eq!(r.crop(0, 1, 0, 2), vec![0, 0, 0, 0, 50, 20]);
    assert_eq!(r.crop(2, 2, 0, 2), Vec::<u8>::new());
}

#[test]
fn grid_counts_round_up() {
    assert_eq!(count_tiles(4, 2), 2);
    assert_eq!(count_tiles(5, 2), 3);
    assert_eq!(count_tiles(6, 3), 2);
    assert_eq!(count_tiles(1, 7), 1);
    assert_eq!(count_tiles(0, 3), 0);
    assert_eq!(count_tiles(u32::MAX, 1), u32::MAX);
    assert_eq!(count_tiles(u32::MAX, u32::MAX), 1);
}

#[test]
fn boundary_tiles_are_cut_off() {
    assert_eq!(tile_span(0, 2, 5), (0, 2));
    assert_eq!(tile_span(1, 2, 5), (2, 4));
    assert_eq!(tile_span(2, 2, 5), (4, 5));
    assert_eq!(tile_span(0, 9, 5), (0, 5));
    assert_eq!(tile_span(0, u32::MAX, u32::MAX), (0, u32::MAX));
}

#[test]
fn edge_strength_is_amplified_and_saturates() {
    assert_eq!(edge_strength(5, 5), 0);
    assert_eq!(edge_strength(10, 20), 30);
    assert_eq!(edge_strength(20, 10), 30);
    assert_eq!(edge_strength(0, 85), 255);
    assert_eq!(edge_strength(0, 86), 255);
    assert_eq!(edge_strength(255, 0), 255);
    assert_eq!(edge_strength(100, 16), 252);
}

#[test]
fn edge_map_needs_copies_of_one_size() {
    let a = solid(2, 2, (1, 2, 3));
    let b = solid(2, 3, (1, 2, 3));
    assert!(matches!(edge_map(&a, &b), Err(RenderError::BufferConstructionFailure)));
    let c = Raster::new(2, 1, vec![0, 10, 200, 50, 60, 70]).unwrap();
    let d = Raster::new(2, 1, vec![5, 0, 0, 50, 61, 170]).unwrap();
    let e = edge_map(&c, &d).unwrap();
    assert_eq!((e.width(), e.height()), (2, 1));
    assert_eq!(e.as_bytes(), &[15, 30, 255, 0, 3, 255]);
}

#[test]
fn glyph_table_is_the_ramp() {
    let ramp: String = GLYPHS.iter().collect();
    assert_eq!(
        ramp,
        " `-:_,^=;><+!rc*/z?sLTv)J7(|Fi{C}fI31tlu[neoZ5Yxjya]2ESwqkP6h9d4VpOGbUAKXHm8RD#$Bg0MNWQ%&@"
    );
}

#[test]
fn glyph_follows_the_brightness() {
    assert_eq!(pick_glyph(0, false), ' ');
    assert_eq!(pick_glyph(255, false), '@');
    assert_eq!(pick_glyph(255, true), '@');
    // 1 * 89 / 255 = 0.35 -> 0, 2 * 89 / 255 = 0.70 -> 1
    assert_eq!(pick_glyph(1, false), ' ');
    assert_eq!(pick_glyph(2, false), '`');
    // 128 * 89 / 255 = 44.67 -> 45
    assert_eq!(pick_glyph(128, false), GLYPHS[45]);
    // 127 * 89 / 255 = 44.33 -> 44
    assert_eq!(pick_glyph(127, false), GLYPHS[44]);
    for mean in 0..=255u8 {
        let place = ((mean as f64) / 255.0 * 89.0).round() as usize;
        assert_eq!(pick_glyph(mean, false), GLYPHS[place.min(89)]);
    }
}

#[test]
fn blank_glyph_is_replaced_without_background() {
    assert_eq!(pick_glyph(0, true), '`');
    assert_eq!(pick_glyph(1, true), '`');
    assert_eq!(pick_glyph(2, true), '`');
    assert_eq!(pick_glyph(5, true), GLYPHS[2]);
}

#[test]
fn mean_brightness_uses_the_luma_weights() {
    assert_eq!(mean_brightness(&[0, 0, 0]), 0);
    assert_eq!(mean_brightness(&[255, 255, 255]), 255);
    // (2126 * 255) / 10000 = 54, (7152 * 255) / 10000 = 182, (722 * 255) / 10000 = 18
    assert_eq!(mean_brightness(&[255, 0, 0]), 54);
    assert_eq!(mean_brightness(&[0, 255, 0]), 182);
    assert_eq!(mean_brightness(&[0, 0, 255]), 18);
    // (54 + 182 + 18) / 3 = 84
    assert_eq!(mean_brightness(&[255, 0, 0, 0, 255, 0, 0, 0, 255]), 84);
    // (54 + 182) / 2 = 118
    assert_eq!(mean_brightness(&[255, 0, 0, 0, 255, 0]), 118);
}

#[test]
fn quantize_goes_through_the_depth() {
    let c = Rgb24 { r: 250, g: 3, b: 9 };
    assert_eq!(quantize(ColourDepth::Rgb24, c), c);
    assert_eq!(quantize(ColourDepth::Grayscale, c), Rgb24 { r: 87, g: 87, b: 87 });
    // 250 >> 3 = 31 -> 255, 3 >> 2 = 0 -> 0, 9 >> 3 = 1 -> 8
    assert_eq!(quantize(ColourDepth::Rgb16, c), Rgb24 { r: 255, g: 0, b: 8 });
    assert_eq!(quantize(ColourDepth::Ansi, c), Rgb24 { r: 225, g: 0, b: 0 });
    assert_eq!(quantize(ColourDepth::Unquantized, c), c);
}

#[test]
fn style_orders_the_colours() {
    let p = Rgb24 { r: 10, g: 20, b: 30 };
    let s = Rgb24 { r: 200, g: 100, b: 50 };
    assert_eq!(style(ColourDepth::Rgb24, p, s, false), (s, Some(p)));
    assert_eq!(style(ColourDepth::Rgb24, p, s, true), (p, None));
    let black = Rgb24 { r: 0, g: 0, b: 0 };
    let white = Rgb24 { r: 255, g: 255, b: 255 };
    assert_eq!(style(ColourDepth::Unquantized, p, s, false), (black, Some(white)));
    assert_eq!(style(ColourDepth::Unquantized, p, s, true), (black, None));
    assert_eq!(
        style(ColourDepth::Grayscale, p, s, false),
        (Rgb24 { r: 116, g: 116, b: 116 }, Some(Rgb24 { r: 20, g: 20, b: 20 }))
    );
}

#[test]
fn cell_text_is_the_escape_sequence() {
    let with_background = RenderCell {
        glyph: '#',
        foreground: Rgb24 { r: 255, g: 0, b: 10 },
        background: Some(Rgb24 { r: 1, g: 22, b: 133 }),
    };
    assert_eq!(
        format_cell(&with_background),
        "\x1b[48;2;1;22;133m\x1b[38;2;255;0;10m#\x1b[39m\x1b[49m"
    );
    let alone = RenderCell { glyph: '`', foreground: Rgb24 { r: 0, g: 100, b: 9 }, background: None };
    assert_eq!(format_cell(&alone), "\x1b[38;2;0;100;9m`\x1b[39m");
}

#[test]
fn rows_end_with_a_line_feed() {
    let cell = RenderCell { glyph: 'x', foreground: Rgb24 { r: 1, g: 2, b: 3 }, background: None };
    let one = "\x1b[38;2;1;2;3mx\x1b[39m";
    assert_eq!(compose(&vec![], 3), "");
    assert_eq!(compose(&vec![cell; 4], 2), format!("{one}{one}\n{one}{one}\n"));
    assert_eq!(compose(&vec![cell; 3], 3), format!("{one}{one}{one}\n"));
    assert_eq!(compose(&vec![cell; 2], 1), format!("{one}\n{one}\n"));
}

#[test]
fn zero_sample_size_is_refused() {
    let image = solid(4, 6, (255, 0, 0));
    let edges = solid(4, 6, (0, 0, 0));
    assert!(matches!(
        render(&image, &edges, 0, 3, ColourDepth::Ansi, false, false),
        Err(RenderError::InvalidConfiguration)
    ));
    assert!(matches!(
        render(&image, &edges, 2, 0, ColourDepth::Ansi, false, false),
        Err(RenderError::InvalidConfiguration)
    ));
    let other = solid(1, 1, (0, 0, 0));
    assert!(matches!(
        render(&image, &other, 0, 0, ColourDepth::Rgb24, true, true),
        Err(RenderError::InvalidConfiguration)
    ));
    let empty = solid(0, 0, (0, 0, 0));
    assert!(matches!(
        render(&empty, &empty, 0, 1, ColourDepth::Rgb24, true, true),
        Err(RenderError::InvalidConfiguration)
    ));
    assert!(matches!(
        into_ascii_controlled(&image, (&edges, &edges), (0, 3), false, false, ColourDepth::Ansi),
        Err(RenderError::InvalidConfiguration)
    ));
}

#[test]
fn empty_image_is_refused() {
    let empty = solid(0, 4, (0, 0, 0));
    assert!(matches!(
        render(&empty, &empty, 2, 3, ColourDepth::Rgb24, false, false),
        Err(RenderError::EmptyImage)
    ));
    let flat = solid(4, 0, (0, 0, 0));
    assert!(matches!(
        render(&flat, &flat, 2, 3, ColourDepth::Rgb24, false, false),
        Err(RenderError::EmptyImage)
    ));
}

#[test]
fn edge_map_of_another_size_is_refused() {
    let image = solid(4, 6, (255, 0, 0));
    let edges = solid(4, 5, (0, 0, 0));
    assert!(matches!(
        render(&image, &edges, 2, 3, ColourDepth::Rgb24, false, false),
        Err(RenderError::BufferConstructionFailure)
    ));
    let narrow = solid(4, 6, (0, 0, 0));
    let wide = solid(6, 4, (0, 0, 0));
    assert!(matches!(
        into_ascii_controlled(&image, (&narrow, &wide), (2, 3), false, false, ColourDepth::Rgb24),
        Err(RenderError::BufferConstructionFailure)
    ));
    let small = solid(2, 2, (0, 0, 0));
    assert!(matches!(
        into_ascii_controlled(&image, (&small, &small), (2, 3), false, false, ColourDepth::Rgb24),
        Err(RenderError::BufferConstructionFailure)
    ));
}

#[test]
fn grid_has_one_cell_for_each_tile() {
    let image = gradient(5, 7);
    let edges = solid(5, 7, (0, 0, 0));
    for (sw, sh, cells) in [(2u32, 3u32, 9usize), (1, 1, 35), (5, 7, 1), (9, 9, 1), (4, 2, 8)] {
        let all = render_cells(&image, &edges, &settings(sw, sh, ColourDepth::Rgb24, false, false))
            .unwrap();
        assert_eq!(all.len(), cells);
        let text = render(&image, &edges, sw, sh, ColourDepth::Rgb24, false, false).unwrap();
        assert_eq!(text.matches('\n').count(), count_tiles(7, sh) as usize);
        assert_eq!(text.matches("\x1b[38;2;").count(), cells);
    }
}

#[test]
fn cells_come_in_row_order() {
    let image = gradient(5, 4);
    let copy = gradient(5, 4);
    let edges = edge_map(&blur(&copy, 1.0), &blur(&copy, 2.5)).unwrap();
    for depth in [ColourDepth::Rgb24, ColourDepth::Rgb16, ColourDepth::Grayscale, ColourDepth::Ansi] {
        let s = settings(2, 3, depth, false, false);
        let all = render_cells(&image, &edges, &s).unwrap();
        assert_eq!(all.len(), 6);
        for (index, cell) in all.iter().enumerate() {
            assert_eq!(*cell, render_cell(&image, &edges, &s, index));
        }
        let text = render(&image, &edges, 2, 3, depth, false, false).unwrap();
        assert_eq!(text, compose(&all, 3));
    }
}

#[test]
fn cell_samples_its_own_tile() {
    // two tiles side by side: a red one and a blue one
    let bytes = vec![255, 0, 0, 0, 0, 255, 255, 0, 0, 0, 0, 255];
    let image = Raster::new(2, 2, bytes).unwrap();
    let edges = Raster::new(2, 2, vec![0, 0, 0, 255, 255, 255, 0, 0, 0, 255, 255, 255]).unwrap();
    let s = settings(1, 2, ColourDepth::Rgb24, false, false);
    let red = Rgb24 { r: 255, g: 0, b: 0 };
    let blue = Rgb24 { r: 0, g: 0, b: 255 };
    assert_eq!(
        render_cell(&image, &edges, &s, 0),
        RenderCell { glyph: ' ', foreground: red, background: Some(red) }
    );
    assert_eq!(
        render_cell(&image, &edges, &s, 1),
        RenderCell { glyph: '@', foreground: blue, background: Some(blue) }
    );
    let shown = settings(1, 2, ColourDepth::Rgb24, true, true);
    let white = Rgb24 { r: 255, g: 255, b: 255 };
    assert_eq!(
        render_cell(&image, &edges, &shown, 1),
        RenderCell { glyph: '@', foreground: white, background: None }
    );
    assert_eq!(
        render_cell(&image, &edges, &shown, 0),
        RenderCell { glyph: '`', foreground: Rgb24 { r: 0, g: 0, b: 0 }, background: None }
    );
}

#[test]
fn solid_red_in_the_palette() {
    let image = solid(4, 6, (255, 0, 0));
    let narrow = blur(&image, 3.0);
    let wide = blur(&image, 9.0);
    let text = into_ascii_controlled(
        &image,
        (&narrow, &wide),
        (2, 3),
        false,
        false,
        ColourDepth::Ansi,
    )
    .unwrap();
    let cell = "\x1b[48;2;225;0;0m\x1b[38;2;225;0;0m \x1b[39m\x1b[49m";
    assert_eq!(text, format!("{cell}{cell}\n{cell}{cell}\n"));
    let edges = edge_map(&narrow, &wide).unwrap();
    let all = render_cells(&image, &edges, &settings(2, 3, ColourDepth::Ansi, false, false)).unwrap();
    assert_eq!(all.len(), 4);
    let red = Rgb24 { r: 225, g: 0, b: 0 };
    for cell in all {
        assert_eq!(cell, RenderCell { glyph: GLYPHS[0], foreground: red, background: Some(red) });
    }
}

#[test]
fn solid_red_strip_is_one_row_of_two_cells() {
    let image = solid(4, 3, (255, 0, 0));
    let narrow = blur(&image, 3.0);
    let wide = blur(&image, 9.0);
    let text = into_ascii_controlled(
        &image,
        (&narrow, &wide),
        (2, 3),
        false,
        false,
        ColourDepth::Ansi,
    )
    .unwrap();
    let cell = "\x1b[48;2;225;0;0m\x1b[38;2;225;0;0m \x1b[39m\x1b[49m";
    assert_eq!(text, format!("{cell}{cell}\n"));
}

#[test]
fn uniform_image_has_no_edges() {
    for colour in [(0u8, 0u8, 0u8), (255, 255, 255), (12, 200, 77), (255, 0, 0)] {
        let image = solid(7, 5, colour);
        for (sigma, scalar) in [(3.0f32, 3.0f32), (1.0, 0.7), (0.0, 3.0), (-1.0, 2.0), (0.5, 1.0)] {
            let narrow = blur(&image, sigma);
            let wide = blur(&image, scalar * sigma);
            let edges = edge_map(&narrow, &wide).unwrap();
            assert!(edges.as_bytes().iter().all(|b| *b == 0));
            let s = settings(2, 3, ColourDepth::Rgb24, false, false);
            let all = render_cells(&image, &edges, &s).unwrap();
            assert_eq!(all.len(), 8);
            let c = Rgb24 { r: colour.0, g: colour.1, b: colour.2 };
            for cell in all {
                assert_eq!(cell, RenderCell { glyph: GLYPHS[0], foreground: c, background: Some(c) });
            }
        }
    }
}

#[test]
fn unquantized_depth_is_black_on_white() {
    let image = gradient(2, 3);
    let edges = solid(2, 3, (0, 0, 0));
    let text = render(&image, &edges, 2, 3, ColourDepth::Unquantized, false, false).unwrap();
    assert_eq!(text, "\x1b[48;2;255;255;255m\x1b[38;2;0;0;0m \x1b[39m\x1b[49m\n");
    let bare = render(&image, &edges, 2, 3, ColourDepth::Unquantized, false, true).unwrap();
    assert_eq!(bare, "\x1b[38;2;0;0;0m`\x1b[39m\n");
}

#[test]
fn edges_give_denser_glyphs() {
    // left half black, right half white: the edge lies between them
    let mut bytes = Vec::new();
    for _y in 0..8 {
        for x in 0..8 {
            let v = if x < 4 { 0 } else { 255 };
            bytes.extend_from_slice(&[v, v, v]);
        }
    }
    let image = Raster::new(8, 8, bytes).unwrap();
    let edges = edge_map(&blur(&image, 1.0), &blur(&image, 3.0)).unwrap();
    let all = render_cells(&image, &edges, &settings(2, 8, ColourDepth::Rgb24, false, false)).unwrap();
    assert_eq!(all.len(), 4);
    assert!(all.iter().any(|cell| cell.glyph != GLYPHS[0]));
}
