//! The glyph ramp: from the mean brightness of a tile of the edge map to the
//! character that shows it.

use crate::colors::Rgb24;
use crate::dominant::{pixel_at, pixel_count};
use vstd::prelude::*;

verus! {

/// The glyphs, the emptiest first and the densest last.
pub const GLYPHS: [char; 90] = [
    ' ', '`', '-', ':', '_', ',', '^', '=', ';', '>',
    '<', '+', '!', 'r', 'c', '*', '/', 'z', '?', 's',
    'L', 'T', 'v', ')', 'J', '7', '(', '|', 'F', 'i',
    '{', 'C', '}', 'f', 'I', '3', '1', 't', 'l', 'u',
    '[', 'n', 'e', 'o', 'Z', '5', 'Y', 'x', 'j', 'y',
    'a', ']', '2', 'E', 'S', 'w', 'q', 'k', 'P', '6',
    'h', '9', 'd', '4', 'V', 'p', 'O', 'G', 'b', 'U',
    'A', 'K', 'X', 'H', 'm', '8', 'R', 'D', '#', '$',
    'B', 'g', '0', 'M', 'N', 'W', 'Q', '%', '&', '@',
];

/// The brightness of a colour: 0.2126 of its red, 0.7152 of its green and
/// 0.0722 of its blue, rounded down.
pub open spec fn luma(r: u8, g: u8, b: u8) -> int {
    (2126 * r + 7152 * g + 722 * b) / 10000
}

/// Calls `image::Pixel::to_luma` on an `image::Rgb` pixel of the three
/// channels and returns the one channel of the `image::Luma` pixel that comes
/// back.
///
/// Trusted: for 8-bit channels the crate computes
/// `(2126 * r + 7152 * g + 722 * b) / 10000` in 32-bit integers, which is at
/// most 255.
#[verifier::external_body]
fn pixel_luma(r: u8, g: u8, b: u8) -> (brightness: u8)
    ensures
        brightness == luma(r, g, b),
{
    image::Pixel::to_luma(&image::Rgb([r, g, b])).0[0]
}

/// The sum of the brightness of the first `n` pixels of a buffer of three
/// bytes a pixel.
pub open spec fn luma_sum(bytes: Seq<u8>, n: nat) -> nat
    decreases n,
{
    if n == 0 {
        0
    } else {
        (luma_sum(bytes, (n - 1) as nat) + luma(
            bytes[3 * (n - 1)],
            bytes[3 * (n - 1) + 1],
            bytes[3 * (n - 1) + 2],
        )) as nat
    }
}

/// The mean brightness of the pixels of a buffer, rounded down.
pub open spec fn mean_luma(bytes: Seq<u8>) -> nat {
    luma_sum(bytes, pixel_count(bytes)) / pixel_count(bytes)
}

/// The place in the ramp for a mean brightness: `mean / 255 * 89`, rounded
/// to the nearest place and kept inside the ramp.
pub open spec fn glyph_index(mean: int) -> int {
    let place = (178 * mean + 255) / 510;
    if place > 89 {
        89
    } else {
        place
    }
}

/// The glyph shown for a mean brightness. Where no background is drawn, the
/// second glyph stands in for the first, which would leave the cell blank.
pub open spec fn shown_glyph(mean: int, no_background: bool) -> char {
    if no_background && glyph_index(mean) == 0 {
        GLYPHS[1]
    } else {
        GLYPHS[glyph_index(mean)]
    }
}

/// The brightness of `n` pixels sums to at most `n` times 255.
proof fn lemma_luma_sum_bound(bytes: Seq<u8>, n: nat)
    ensures
        luma_sum(bytes, n) <= n * 255,
    decreases n,
{
    if n > 0 {
        lemma_luma_sum_bound(bytes, (n - 1) as nat);
    }
}

/// The mean brightness of the pixels of a buffer, rounded down.
pub fn mean_brightness(pixels: &[u8]) -> (mean: u8)
    requires
        pixels@.len() >= 3,
    ensures
        mean == mean_luma(pixels@),
{
    let n = pixels.len() / 3;
    let mut sum: u128 = 0;
    let mut i: usize = 0;
    while i < n
        invariant
            i <= n,
            n == pixel_count(pixels@),
            3 * n <= pixels.len(),
            sum == luma_sum(pixels@, i as nat),
        decreases n - i,
    {
        proof {
            lemma_luma_sum_bound(pixels@, i as nat);
        }
        let brightness = pixel_luma(pixels[3 * i], pixels[3 * i + 1], pixels[3 * i + 2]);
        sum = sum + brightness as u128;
        i += 1;
    }
    proof {
        lemma_luma_sum_bound(pixels@, n as nat);
    }
    let mean = sum / n as u128;
    assert(mean <= 255) by (nonlinear_arith)
        requires
            mean == sum / n as u128,
            sum <= n * 255,
            n > 0,
    ;
    mean as u8
}

/// The glyph shown for a mean brightness.
pub fn pick_glyph(mean: u8, no_background: bool) -> (glyph: char)
    ensures
        glyph == shown_glyph(mean as int, no_background),
{
    let place: u32 = (178 * mean as u32 + 255) / 510;
    let index: usize = if place > 89 {
        89
    } else {
        place as usize
    };
    if no_background && index == 0 {
        GLYPHS[1]
    } else {
        GLYPHS[index]
    }
}

/// No brightness at all picks the first place of the ramp, the full
/// brightness the last.
pub proof fn lemma_glyph_index_ends()
    ensures
        glyph_index(0) == 0,
        glyph_index(255) == 89,
        forall|mean: int| 0 <= mean <= 255 ==> 0 <= #[trigger] glyph_index(mean) <= 89,
{
}

/// A block of black pixels has no brightness.
pub proof fn lemma_dark_block(bytes: Seq<u8>, n: nat)
    requires
        forall|j: int| 0 <= j < n ==> #[trigger] pixel_at(bytes, j) == (Rgb24 { r: 0, g: 0, b: 0 }),
    ensures
        luma_sum(bytes, n) == 0,
    decreases n,
{
    if n > 0 {
        lemma_dark_block(bytes, (n - 1) as nat);
        assert(pixel_at(bytes, n - 1) == (Rgb24 { r: 0, g: 0, b: 0 }));
    }
}

} // verus!
