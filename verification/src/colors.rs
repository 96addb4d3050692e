//! Colour models: the canonical 24-bit colour and the representations it is
//! quantized to, each with the way back.

use vstd::prelude::*;

verus! {

/// A 16-bit packed colour: red in bits 0 to 4, green in bits 5 to 10 and blue
/// in bits 11 to 15.
#[derive(Copy, Clone, Debug, PartialOrd, PartialEq, Eq, Structural)]
pub struct Rgb565 {
    pub rgb: u16,
}

/// The canonical colour: three 8-bit channels.
#[derive(Copy, Clone, Debug, PartialOrd, PartialEq, Eq, Structural)]
pub struct Rgb24 {
    pub r: u8,
    pub g: u8,
    pub b: u8,
}

/// A single 8-bit intensity.
#[derive(Copy, Clone, Debug, PartialOrd, PartialEq, Eq, Structural)]
pub struct Monochrome {
    pub intensity: u8,
}

/// The sixteen entries of the fixed palette, in their enumeration order.
#[derive(Copy, Clone, Debug, PartialOrd, PartialEq, Eq, Structural)]
pub enum Ansi {
    Black,
    DarkRed,
    DarkGreen,
    DarkYellow,
    DarkBlue,
    DarkMagenta,
    DarkCyan,
    Gray,
    DarkGray,
    Red,
    Green,
    Yellow,
    Blue,
    Purple,
    Cyan,
    White,
}

/// The distance between two canonical colours in CIE L*a*b*, as the bit
/// pattern of the non-negative double that `color_space` computes for it.
/// Bit patterns of non-negative doubles are ordered as the doubles are, so
/// two distances compare as their patterns do.
pub uninterp spec fn lab_distance(a: Rgb24, b: Rgb24) -> u64;

/// Calls `color_space::CompareCie1976::compare_cie1976` on the two colours,
/// each handed over as a `color_space::Rgb`, and returns the bit pattern of the
/// double that comes back (`to_bits`).
///
/// Trusted: the result is a function of the two colours alone. It is the
/// square root of the sum of the squared differences of the two L*a*b*
/// triples, so it does not change when the colours are swapped, and it is
/// `+0.0`, whose pattern is 0, when they are equal.
#[verifier::external_body]
fn lab_distance_bits(a: Rgb24, b: Rgb24) -> (bits: u64)
    ensures
        bits == lab_distance(a, b),
        bits == lab_distance(b, a),
        a == b ==> bits == 0,
{
    let x = color_space::Rgb::new(a.r.into(), a.g.into(), a.b.into());
    let y = color_space::Rgb::new(b.r.into(), b.g.into(), b.b.into());
    color_space::CompareCie1976::compare_cie1976(&x, &y).to_bits()
}

/// A colour representation that canonical colours are quantized to and that
/// expands back to a canonical colour.
pub trait Colour: Sized {
    /// The canonical colour that this value stands for.
    spec fn expanded(&self) -> Rgb24;

    /// The value that a canonical colour is quantized to.
    spec fn quantized(colour: Rgb24) -> Self;

    fn into_rgb(&self) -> (rgb: (u8, u8, u8))
        ensures
            rgb == (self.expanded().r, self.expanded().g, self.expanded().b),
    ;

    fn from_rgb(colour: Rgb24) -> (c: Self)
        ensures
            c == Self::quantized(colour),
    ;

    fn from_rgb8(colour: (u8, u8, u8)) -> (c: Self)
        ensures
            c == Self::quantized(Rgb24 { r: colour.0, g: colour.1, b: colour.2 }),
    {
        Self::from_rgb(Rgb24::from(colour))
    }

    /// The perceptual distance from this colour to `colour`, as an ordered bit
    /// pattern (see `lab_distance`). It is symmetric, and zero between a colour
    /// and itself.
    fn colour_distance(&self, colour: Rgb24) -> (d: u64)
        ensures
            d == lab_distance(self.expanded(), colour),
            d == lab_distance(colour, self.expanded()),
            self.expanded() == colour ==> d == 0,
    {
        let (r, g, b) = self.into_rgb();
        lab_distance_bits(Rgb24 { r, g, b }, colour)
    }

    fn colour(r: u8, g: u8, b: u8) -> (c: Self)
        ensures
            c == Self::quantized(Rgb24 { r, g, b }),
    {
        Self::from_rgb8((r, g, b))
    }
}

impl Rgb24 {
    pub fn from(colour: (u8, u8, u8)) -> (c: Rgb24)
        ensures
            c == (Rgb24 { r: colour.0, g: colour.1, b: colour.2 }),
    {
        Rgb24 { r: colour.0, g: colour.1, b: colour.2 }
    }
}

impl Colour for Rgb24 {
    open spec fn expanded(&self) -> Rgb24 {
        *self
    }

    open spec fn quantized(colour: Rgb24) -> Self {
        colour
    }

    fn into_rgb(&self) -> (rgb: (u8, u8, u8)) {
        (self.r, self.g, self.b)
    }

    fn from_rgb(colour: Rgb24) -> (c: Self) {
        colour
    }
}

/// A field rescaled to 0..=255: multiplied by 255, divided by the largest
/// value that the field can hold, rounded down and cut off at 255.
pub open spec fn rescale(field: int, largest: int) -> int {
    if field * 255 / largest > 255 {
        255
    } else {
        field * 255 / largest
    }
}

impl Rgb565 {
    /// The 5-bit red field.
    pub open spec fn red(self) -> int {
        self.rgb as int % 32
    }

    /// The 6-bit green field.
    pub open spec fn green(self) -> int {
        (self.rgb as int / 32) % 64
    }

    /// The 5-bit blue field.
    pub open spec fn blue(self) -> int {
        self.rgb as int / 2048
    }
}

impl Colour for Rgb565 {
    open spec fn expanded(&self) -> Rgb24 {
        Rgb24 {
            r: rescale(self.red(), 31) as u8,
            g: rescale(self.green(), 63) as u8,
            b: rescale(self.blue(), 31) as u8,
        }
    }

    /// Each channel keeps its top bits: five of red, six of green, five of
    /// blue.
    open spec fn quantized(colour: Rgb24) -> Self {
        Rgb565 { rgb: (colour.r / 8 + 32 * (colour.g / 4) + 2048 * (colour.b / 8)) as u16 }
    }

    fn into_rgb(&self) -> (rgb: (u8, u8, u8)) {
        let word = self.rgb;
        let r_i: u16 = 0b0000000000011111 & word;
        let g_i: u16 = (0b0000011111100000 & word) >> 5;
        let b_i: u16 = (0b1111100000000000 & word) >> 11;
        assert(r_i == word % 32 && g_i == (word / 32) % 64 && b_i == word / 2048) by (bit_vector)
            requires
                r_i == 0b0000000000011111 & word,
                g_i == (0b0000011111100000 & word) >> 5,
                b_i == (0b1111100000000000 & word) >> 11,
        ;
        let r: u16 = r_i * 255 / 31;
        let g: u16 = g_i * 255 / 63;
        let b: u16 = b_i * 255 / 31;
        (clamp_channel(r), clamp_channel(g), clamp_channel(b))
    }

    fn from_rgb(colour: Rgb24) -> (c: Self) {
        let r: u16 = (colour.r >> 3) as u16;
        let g: u16 = (colour.g >> 2) as u16;
        let b: u16 = (colour.b >> 3) as u16;
        let red = colour.r;
        let green = colour.g;
        let blue = colour.b;
        assert(r == red / 8 && g == green / 4 && b == blue / 8) by (bit_vector)
            requires
                r == (red >> 3) as u16,
                g == (green >> 2) as u16,
                b == (blue >> 3) as u16,
        ;
        assert((r | g << 5 | b << 11) == r + 32 * g + 2048 * b) by (bit_vector)
            requires
                r < 32,
                g < 64,
                b < 32,
        ;
        Rgb565 { rgb: r | g << 5 | b << 11 }
    }
}

/// Cuts a rescaled channel off at 255.
fn clamp_channel(value: u16) -> (channel: u8)
    ensures
        channel == if value > 255 { 255 } else { value as int },
{
    if value > 255 {
        255
    } else {
        value as u8
    }
}

impl Colour for Monochrome {
    open spec fn expanded(&self) -> Rgb24 {
        Rgb24 { r: self.intensity, g: self.intensity, b: self.intensity }
    }

    /// The mean of the three channels, rounded down.
    open spec fn quantized(colour: Rgb24) -> Self {
        Monochrome { intensity: ((colour.r + colour.g + colour.b) / 3) as u8 }
    }

    fn into_rgb(&self) -> (rgb: (u8, u8, u8)) {
        (self.intensity, self.intensity, self.intensity)
    }

    fn from_rgb(colour: Rgb24) -> (c: Self) {
        let brightness: u16 = (colour.r as u16 + colour.g as u16 + colour.b as u16) / 3;
        Monochrome { intensity: brightness as u8 }
    }
}

/// The palette in enumeration order.
pub const PALETTE: [Ansi; 16] = [
    Ansi::Black,
    Ansi::DarkRed,
    Ansi::DarkGreen,
    Ansi::DarkYellow,
    Ansi::DarkBlue,
    Ansi::DarkMagenta,
    Ansi::DarkCyan,
    Ansi::Gray,
    Ansi::DarkGray,
    Ansi::Red,
    Ansi::Green,
    Ansi::Yellow,
    Ansi::Blue,
    Ansi::Purple,
    Ansi::Cyan,
    Ansi::White,
];

impl Ansi {
    /// The entry's place in the enumeration order, from 0.
    pub open spec fn index(self) -> int {
        match self {
            Ansi::Black => 0,
            Ansi::DarkRed => 1,
            Ansi::DarkGreen => 2,
            Ansi::DarkYellow => 3,
            Ansi::DarkBlue => 4,
            Ansi::DarkMagenta => 5,
            Ansi::DarkCyan => 6,
            Ansi::Gray => 7,
            Ansi::DarkGray => 8,
            Ansi::Red => 9,
            Ansi::Green => 10,
            Ansi::Yellow => 11,
            Ansi::Blue => 12,
            Ansi::Purple => 13,
            Ansi::Cyan => 14,
            Ansi::White => 15,
        }
    }

    /// `entry` is the palette entry nearest to `colour`: no entry is nearer,
    /// and of the entries as near it is the first in the enumeration order.
    pub open spec fn is_nearest(entry: Ansi, colour: Rgb24) -> bool {
        forall|other: Ansi|
            {
                let d = lab_distance(entry.expanded(), colour);
                let e = #[trigger] lab_distance(other.expanded(), colour);
                d < e || (d == e && entry.index() <= other.index())
            }
    }

    /// `place` holds the least of the distances, and no place before it holds
    /// a distance as small.
    pub open spec fn is_first_least(distances: Seq<u64>, place: int) -> bool {
        &&& 0 <= place < distances.len()
        &&& forall|k: int|
            0 <= k < distances.len() ==> distances[place] < #[trigger] distances[k] || (
            distances[place] == distances[k] && place <= k)
    }

    /// The entry whose distance is the least of the sixteen, each distance
    /// standing at the place of its entry: of the entries at the least
    /// distance, the first in the enumeration order.
    pub fn nearest(distances: &[u64; 16]) -> (entry: Ansi)
        ensures
            Ansi::is_first_least(distances@, entry.index()),
    {
        let mut best: usize = 0;
        let mut i: usize = 1;
        while i < 16
            invariant
                1 <= i <= 16,
                0 <= best < i,
                forall|k: int|
                    0 <= k < i ==> distances[best as int] < #[trigger] distances[k] || (
                    distances[best as int] == distances[k] && best <= k),
            decreases 16 - i,
        {
            if distances[i] < distances[best] {
                best = i;
            }
            i += 1;
        }
        PALETTE[best]
    }

    /// Every entry stands at its own place in `PALETTE`.
    pub proof fn lemma_palette_order(entry: Ansi)
        ensures
            0 <= entry.index() < 16,
            PALETTE[entry.index()] == entry,
    {
    }

    /// Among the first `n` entries one is the nearest to a colour.
    proof fn lemma_nearest_among(colour: Rgb24, n: int) -> (best: Ansi)
        requires
            1 <= n <= 16,
        ensures
            0 <= best.index() < n,
            forall|k: int|
                0 <= k < n ==> {
                    let d = lab_distance(best.expanded(), colour);
                    let e = #[trigger] lab_distance(PALETTE[k].expanded(), colour);
                    d < e || (d == e && best.index() <= k)
                },
        decreases n,
    {
        if n == 1 {
            PALETTE[0]
        } else {
            let before = Ansi::lemma_nearest_among(colour, n - 1);
            let last = PALETTE[n - 1];
            Ansi::lemma_palette_order(before);
            if lab_distance(last.expanded(), colour) < lab_distance(before.expanded(), colour) {
                last
            } else {
                before
            }
        }
    }

    /// Every colour has a nearest entry, and it is the one that the colour is
    /// quantized to.
    pub proof fn lemma_quantized_is_nearest(colour: Rgb24)
        ensures
            Ansi::is_nearest(Ansi::quantized(colour), colour),
    {
        let best = Ansi::lemma_nearest_among(colour, 16);
        assert forall|other: Ansi|
            {
                let d = lab_distance(best.expanded(), colour);
                let e = #[trigger] lab_distance(other.expanded(), colour);
                d < e || (d == e && best.index() <= other.index())
            } by {
            Ansi::lemma_palette_order(other);
            let k = other.index();
            assert(lab_distance(PALETTE[k].expanded(), colour) == lab_distance(
                other.expanded(),
                colour,
            ));
        }
        assert(Ansi::is_nearest(best, colour));
    }

    /// At most one entry is the nearest to a colour.
    pub proof fn lemma_nearest_unique(first: Ansi, second: Ansi, colour: Rgb24)
        requires
            Ansi::is_nearest(first, colour),
            Ansi::is_nearest(second, colour),
        ensures
            first == second,
    {
        let d1 = lab_distance(first.expanded(), colour);
        let d2 = lab_distance(second.expanded(), colour);
        assert(d1 < d2 || (d1 == d2 && first.index() <= second.index()));
        assert(d2 < d1 || (d2 == d1 && second.index() <= first.index()));
        Ansi::lemma_palette_order(first);
        Ansi::lemma_palette_order(second);
    }
}

impl Colour for Ansi {
    open spec fn expanded(&self) -> Rgb24 {
        match self {
            Ansi::Black => Rgb24 { r: 1, g: 1, b: 1 },
            Ansi::DarkRed => Rgb24 { r: 222, g: 56, b: 43 },
            Ansi::DarkGreen => Rgb24 { r: 57, g: 181, b: 74 },
            Ansi::DarkYellow => Rgb24 { r: 255, g: 199, b: 6 },
            Ansi::DarkBlue => Rgb24 { r: 0, g: 111, b: 184 },
            Ansi::DarkMagenta => Rgb24 { r: 118, g: 38, b: 113 },
            Ansi::DarkCyan => Rgb24 { r: 44, g: 181, b: 233 },
            Ansi::Gray => Rgb24 { r: 204, g: 204, b: 204 },
            Ansi::DarkGray => Rgb24 { r: 128, g: 128, b: 128 },
            Ansi::Red => Rgb24 { r: 225, g: 0, b: 0 },
            Ansi::Green => Rgb24 { r: 0, g: 255, b: 0 },
            Ansi::Yellow => Rgb24 { r: 255, g: 255, b: 0 },
            Ansi::Blue => Rgb24 { r: 0, g: 0, b: 255 },
            Ansi::Purple => Rgb24 { r: 255, g: 0, b: 255 },
            Ansi::Cyan => Rgb24 { r: 0, g: 255, b: 255 },
            Ansi::White => Rgb24 { r: 255, g: 255, b: 255 },
        }
    }

    /// The nearest palette entry.
    open spec fn quantized(colour: Rgb24) -> Self {
        choose|entry: Ansi| Ansi::is_nearest(entry, colour)
    }

    fn into_rgb(&self) -> (rgb: (u8, u8, u8)) {
        // The colour scheme of the Ubuntu terminal.
        match self {
            Ansi::Black => (1, 1, 1),
            Ansi::DarkRed => (222, 56, 43),
            Ansi::DarkGreen => (57, 181, 74),
            Ansi::DarkYellow => (255, 199, 6),
            Ansi::DarkBlue => (0, 111, 184),
            Ansi::DarkMagenta => (118, 38, 113),
            Ansi::DarkCyan => (44, 181, 233),
            Ansi::Gray => (204, 204, 204),
            Ansi::DarkGray => (128, 128, 128),
            Ansi::Red => (225, 0, 0),
            Ansi::Green => (0, 255, 0),
            Ansi::Yellow => (255, 255, 0),
            Ansi::Blue => (0, 0, 255),
            Ansi::Purple => (255, 0, 255),
            Ansi::Cyan => (0, 255, 255),
            Ansi::White => (255, 255, 255),
        }
    }

    /// Measures the distance from every entry to the colour and picks the
    /// nearest. Where `colour` is the canonical colour of an entry, the entry
    /// returned is at distance zero from it and comes no later.
    fn from_rgb(colour: Rgb24) -> (c: Self)
        ensures
            Ansi::is_nearest(c, colour),
            forall|entry: Ansi|
                #[trigger] entry.expanded() == colour ==> lab_distance(c.expanded(), colour) == 0
                    && c.index() <= entry.index(),
    {
        let mut distances: [u64; 16] = [0; 16];
        let mut i: usize = 0;
        while i < 16
            invariant
                i <= 16,
                forall|k: int|
                    0 <= k < i ==> {
                        let e = #[trigger] lab_distance(PALETTE[k].expanded(), colour);
                        &&& distances[k] == e
                        &&& (PALETTE[k].expanded() == colour ==> e == 0)
                    },
            decreases 16 - i,
        {
            distances[i] = PALETTE[i].colour_distance(colour);
            i += 1;
        }
        let best = Ansi::nearest(&distances);
        proof {
            Ansi::lemma_palette_order(best);
            assert forall|other: Ansi|
                {
                    let d = lab_distance(best.expanded(), colour);
                    let e = #[trigger] lab_distance(other.expanded(), colour);
                    d < e || (d == e && best.index() <= other.index())
                } by {
                Ansi::lemma_palette_order(other);
                let k = other.index();
                assert(distances[k] == lab_distance(PALETTE[k].expanded(), colour));
            }
            assert forall|entry: Ansi| #[trigger] entry.expanded() == colour implies lab_distance(
                best.expanded(),
                colour,
            ) == 0 && best.index() <= entry.index() by {
                Ansi::lemma_palette_order(entry);
                let k = entry.index();
                assert(lab_distance(PALETTE[k].expanded(), colour) == 0);
                assert(distances[k] == 0);
            }
            assert(Ansi::is_nearest(best, colour));
            Ansi::lemma_nearest_unique(best, Ansi::quantized(colour), colour);
        }
        best
    }
}

impl Colour for (u8, u8, u8) {
    open spec fn expanded(&self) -> Rgb24 {
        Rgb24 { r: self.0, g: self.1, b: self.2 }
    }

    open spec fn quantized(colour: Rgb24) -> Self {
        (colour.r, colour.g, colour.b)
    }

    fn into_rgb(&self) -> (rgb: (u8, u8, u8)) {
        *self
    }

    fn from_rgb(colour: Rgb24) -> (c: Self) {
        (colour.r, colour.g, colour.b)
    }
}

/// Quantizing a colour to 24 bits and expanding it again gives the colour
/// back.
pub proof fn lemma_truecolor_round_trip(colour: Rgb24)
    ensures
        Rgb24::quantized(colour).expanded() == colour,
{
}

/// Quantizing a colour to 16 bits and expanding it again never raises a
/// channel above 255 and moves it by less than its quantization step: 8 for
/// red and blue, 4 for green.
pub proof fn lemma_packed16_round_trip(colour: Rgb24)
    ensures
        ({
            let back = Rgb565::quantized(colour).expanded();
            &&& -8 < back.r - colour.r < 8
            &&& -4 < back.g - colour.g < 4
            &&& -8 < back.b - colour.b < 8
        }),
{
    let packed = Rgb565::quantized(colour);
    let r = colour.r as int / 8;
    let g = colour.g as int / 4;
    let b = colour.b as int / 8;
    assert(packed.rgb == r + 32 * g + 2048 * b);
    assert(packed.red() == r && packed.green() == g && packed.blue() == b);
}

/// Expanding a 16-bit colour and quantizing it again gives the same word
/// back.
pub proof fn lemma_packed16_stable(packed: Rgb565)
    ensures
        Rgb565::quantized(packed.expanded()) == packed,
{
    let word = packed.rgb;
    let r: u16 = word % 32;
    let g: u16 = (word / 32) % 64;
    let b: u16 = word / 2048;
    assert(r + 32 * g + 2048 * b == word && r < 32 && g < 64 && b < 32) by (bit_vector)
        requires
            r == word % 32,
            g == (word / 32) % 64,
            b == word / 2048,
    ;
    assert(r * 255 / 31 <= 255 && (r * 255 / 31) / 8 == r) by (bit_vector)
        requires
            r < 32,
    ;
    assert(g * 255 / 63 <= 255 && (g * 255 / 63) / 4 == g) by (bit_vector)
        requires
            g < 64,
    ;
    assert(b * 255 / 31 <= 255 && (b * 255 / 31) / 8 == b) by (bit_vector)
        requires
            b < 32,
    ;
}

} // verus!
