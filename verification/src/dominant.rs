//! The two colours that stand for a block of sampled pixels.

use crate::colors::Rgb24;
use std::collections::HashMap;
use vstd::prelude::*;

verus! {

/// The number of whole pixels in a buffer of three bytes a pixel. Bytes after
/// the last whole pixel are not part of the block.
pub open spec fn pixel_count(bytes: Seq<u8>) -> nat {
    (bytes.len() / 3) as nat
}

/// The `i`-th pixel of the buffer.
pub open spec fn pixel_at(bytes: Seq<u8>, i: int) -> Rgb24 {
    Rgb24 { r: bytes[3 * i], g: bytes[3 * i + 1], b: bytes[3 * i + 2] }
}

/// The sum, over the first `n` pixels, of the square of one channel
/// (0 red, 1 green, 2 blue).
pub open spec fn square_sum(bytes: Seq<u8>, channel: int, n: nat) -> nat
    decreases n,
{
    if n == 0 {
        0
    } else {
        let value = bytes[3 * (n - 1) + channel] as nat;
        square_sum(bytes, channel, (n - 1) as nat) + value * value
    }
}

/// The mean of the squares of one channel over the block, rounded down.
pub open spec fn mean_square(bytes: Seq<u8>, channel: int) -> nat {
    square_sum(bytes, channel, pixel_count(bytes)) / pixel_count(bytes)
}

/// `root` is the square root of `n`, rounded down.
pub open spec fn is_floor_sqrt(root: nat, n: nat) -> bool {
    root * root <= n < (root + 1) * (root + 1)
}

/// The square root of `n`, rounded down.
pub open spec fn floor_sqrt(n: nat) -> nat {
    choose|root: nat| is_floor_sqrt(root, n)
}

/// The statistical summary of a block: channel by channel the quadratic mean
/// of the pixels, rounded down.
pub open spec fn summary(bytes: Seq<u8>) -> Rgb24 {
    Rgb24 {
        r: floor_sqrt(mean_square(bytes, 0)) as u8,
        g: floor_sqrt(mean_square(bytes, 1)) as u8,
        b: floor_sqrt(mean_square(bytes, 2)) as u8,
    }
}

/// How often `colour` occurs among the first `n` pixels.
pub open spec fn occurrences(bytes: Seq<u8>, colour: Rgb24, n: nat) -> nat
    decreases n,
{
    if n == 0 {
        0
    } else {
        occurrences(bytes, colour, (n - 1) as nat) + if pixel_at(bytes, n - 1) == colour {
            1nat
        } else {
            0nat
        }
    }
}

/// The place of a colour in the order that breaks ties: red first, then
/// green, then blue.
pub open spec fn rank(colour: Rgb24) -> int {
    colour.r * 65536 + colour.g * 256 + colour.b
}

/// `colour` is the mode of the block: it occurs, no colour occurs more often,
/// and among the colours that occur as often it is the least by `rank`.
pub open spec fn is_mode(bytes: Seq<u8>, colour: Rgb24) -> bool {
    let n = pixel_count(bytes);
    &&& occurrences(bytes, colour, n) > 0
    &&& forall|other: Rgb24|
        {
            let o = #[trigger] occurrences(bytes, other, n);
            o < occurrences(bytes, colour, n) || (o == occurrences(bytes, colour, n) && rank(colour)
                <= rank(other))
        }
}

/// The mode of the block.
pub open spec fn mode(bytes: Seq<u8>) -> Rgb24 {
    choose|colour: Rgb24| is_mode(bytes, colour)
}

/// The channel-wise mean of two colours, rounded down.
pub open spec fn blend(a: Rgb24, b: Rgb24) -> Rgb24 {
    Rgb24 { r: ((a.r + b.r) / 2) as u8, g: ((a.g + b.g) / 2) as u8, b: ((a.b + b.b) / 2) as u8 }
}

/// The primary colour of a block: its mode blended with its summary.
pub open spec fn primary(bytes: Seq<u8>) -> Rgb24 {
    blend(mode(bytes), summary(bytes))
}

/// A number has one square root rounded down.
pub proof fn lemma_floor_sqrt_unique(root: nat, n: nat)
    requires
        is_floor_sqrt(root, n),
    ensures
        floor_sqrt(n) == root,
{
    let other = floor_sqrt(n);
    assert(is_floor_sqrt(other, n));
    assert(other == root) by (nonlinear_arith)
        requires
            root * root <= n < (root + 1) * (root + 1),
            other * other <= n < (other + 1) * (other + 1),
    ;
}

/// A block has one mode.
pub proof fn lemma_mode_unique(bytes: Seq<u8>, colour: Rgb24)
    requires
        is_mode(bytes, colour),
    ensures
        mode(bytes) == colour,
{
    let other = mode(bytes);
    let n = pixel_count(bytes);
    assert(is_mode(bytes, other));
    let a = occurrences(bytes, colour, n);
    let b = occurrences(bytes, other, n);
    assert(b < a || (b == a && rank(colour) <= rank(other)));
    assert(a < b || (a == b && rank(other) <= rank(colour)));
}

/// A colour cannot occur more often than there are pixels, and it occurs
/// among the first `n` pixels once a pixel before the `n`-th holds it.
proof fn lemma_occurrences_bounds(bytes: Seq<u8>, colour: Rgb24, n: nat)
    ensures
        occurrences(bytes, colour, n) <= n,
        forall|j: int| 0 <= j < n && pixel_at(bytes, j) == colour ==> occurrences(bytes, colour, n) > 0,
        occurrences(bytes, colour, n) > 0 ==> exists|j: int|
            0 <= j < n && pixel_at(bytes, j) == colour,
    decreases n,
{
    if n > 0 {
        lemma_occurrences_bounds(bytes, colour, (n - 1) as nat);
        if occurrences(bytes, colour, n) > 0 {
            if pixel_at(bytes, n - 1) == colour {
                assert(0 <= n - 1 < n && pixel_at(bytes, n - 1) == colour);
            } else {
                let j = choose|j: int| 0 <= j < n - 1 && pixel_at(bytes, j) == colour;
                assert(0 <= j < n && pixel_at(bytes, j) == colour);
            }
        }
    }
}

/// The squares of one channel of `n` pixels sum to at most `n` times 255
/// squared.
proof fn lemma_square_sum_bound(bytes: Seq<u8>, channel: int, n: nat)
    ensures
        square_sum(bytes, channel, n) <= n * 65025,
    decreases n,
{
    if n > 0 {
        lemma_square_sum_bound(bytes, channel, (n - 1) as nat);
        let value = bytes[3 * (n - 1) + channel] as nat;
        assert(value * value <= 65025) by (nonlinear_arith)
            requires
                value <= 255,
        ;
    }
}

/// The square root of `n`, rounded down.
pub fn isqrt(n: u32) -> (root: u32)
    ensures
        is_floor_sqrt(root as nat, n as nat),
        root == floor_sqrt(n as nat),
        root < 65536,
{
    let mut low: u64 = 0;
    let mut high: u64 = 65536;
    while high - low > 1
        invariant
            low < high <= 65536,
            low * low <= n,
            n < high * high,
        decreases high - low,
    {
        let mid: u64 = low + (high - low) / 2;
        assert(mid * mid <= 65536 * 65536) by (nonlinear_arith)
            requires
                mid <= 65536,
        ;
        if mid * mid <= n as u64 {
            low = mid;
        } else {
            high = mid;
        }
    }
    proof {
        lemma_floor_sqrt_unique(low as nat, n as nat);
    }
    low as u32
}

/// The key under which a colour is counted.
fn rank_of(r: u8, g: u8, b: u8) -> (key: u32)
    ensures
        key == rank(Rgb24 { r, g, b }),
{
    r as u32 * 65536 + g as u32 * 256 + b as u32
}

/// How often the colour of rank `key` has been counted.
spec fn tally(counts: Map<u32, usize>, key: u32) -> nat {
    if counts.contains_key(key) {
        counts[key] as nat
    } else {
        0
    }
}

/// Counts how often each colour occurs in the block.
fn count_colours(pixels: &[u8]) -> (counts: HashMap<u32, usize>)
    ensures
        forall|colour: Rgb24|
            tally(counts@, rank(colour) as u32) == #[trigger] occurrences(
                pixels@,
                colour,
                pixel_count(pixels@),
            ),
{
    broadcast use vstd::std_specs::hash::group_hash_axioms;

    let n = pixels.len() / 3;
    let mut counts: HashMap<u32, usize> = HashMap::new();
    let mut i: usize = 0;
    while i < n
        invariant
            i <= n,
            n == pixel_count(pixels@),
            3 * n <= pixels.len(),
            forall|colour: Rgb24|
                tally(counts@, rank(colour) as u32) == #[trigger] occurrences(
                    pixels@,
                    colour,
                    i as nat,
                ),
        decreases n - i,
    {
        let r = pixels[3 * i];
        let g = pixels[3 * i + 1];
        let b = pixels[3 * i + 2];
        let key = rank_of(r, g, b);
        let ghost here = Rgb24 { r, g, b };
        let ghost before = counts@;
        let seen: usize = match counts.get(&key) {
            Some(count) => *count,
            None => 0,
        };
        proof {
            lemma_occurrences_bounds(pixels@, here, i as nat);
            assert(seen == occurrences(pixels@, here, i as nat));
        }
        counts.insert(key, seen + 1);
        i += 1;
        proof {
            assert(pixel_at(pixels@, i - 1) == here);
            assert forall|colour: Rgb24|
                tally(counts@, rank(colour) as u32) == #[trigger] occurrences(
                    pixels@,
                    colour,
                    i as nat,
                ) by {
                assert(tally(before, rank(colour) as u32) == occurrences(
                    pixels@,
                    colour,
                    (i - 1) as nat,
                ));
                if colour != here {
                    assert(rank(colour) != rank(here));
                }
            }
        }
    }
    counts
}

/// Picks the mode: the most frequent colour, the least by `rank` among equals.
fn most_frequent(pixels: &[u8], counts: &HashMap<u32, usize>) -> (best: Rgb24)
    requires
        pixels@.len() >= 3,
        forall|colour: Rgb24|
            tally(counts@, rank(colour) as u32) == #[trigger] occurrences(
                pixels@,
                colour,
                pixel_count(pixels@),
            ),
    ensures
        is_mode(pixels@, best),
        best == mode(pixels@),
{
    broadcast use vstd::std_specs::hash::group_hash_axioms;

    let n = pixels.len() / 3;
    let mut best = Rgb24 { r: pixels[0], g: pixels[1], b: pixels[2] };
    let mut best_key = rank_of(best.r, best.g, best.b);
    let mut best_count: usize = match counts.get(&best_key) {
        Some(count) => *count,
        None => 0,
    };
    proof {
        assert(pixel_at(pixels@, 0) == best);
        lemma_occurrences_bounds(pixels@, best, n as nat);
    }
    let mut i: usize = 1;
    while i < n
        invariant
            1 <= i <= n,
            n == pixel_count(pixels@),
            3 * n <= pixels.len(),
            best_key == rank(best),
            best_count == occurrences(pixels@, best, n as nat),
            best_count > 0,
            forall|colour: Rgb24|
                tally(counts@, rank(colour) as u32) == #[trigger] occurrences(
                    pixels@,
                    colour,
                    n as nat,
                ),
            forall|j: int|
                0 <= j < i ==> {
                    let o = #[trigger] occurrences(pixels@, pixel_at(pixels@, j), n as nat);
                    o < best_count || (o == best_count && rank(best) <= rank(pixel_at(pixels@, j)))
                },
        decreases n - i,
    {
        let here = Rgb24 { r: pixels[3 * i], g: pixels[3 * i + 1], b: pixels[3 * i + 2] };
        let key = rank_of(here.r, here.g, here.b);
        let count: usize = match counts.get(&key) {
            Some(count) => *count,
            None => 0,
        };
        proof {
            assert(pixel_at(pixels@, i as int) == here);
            assert(count == occurrences(pixels@, here, n as nat));
            lemma_occurrences_bounds(pixels@, here, n as nat);
        }
        if count > best_count || (count == best_count && key < best_key) {
            best = here;
            best_key = key;
            best_count = count;
        }
        i += 1;
    }
    proof {
        assert forall|other: Rgb24|
            {
                let o = #[trigger] occurrences(pixels@, other, n as nat);
                o < occurrences(pixels@, best, n as nat) || (o == occurrences(
                    pixels@,
                    best,
                    n as nat,
                ) && rank(best) <= rank(other))
            } by {
            lemma_occurrences_bounds(pixels@, other, n as nat);
            if occurrences(pixels@, other, n as nat) > 0 {
                let j = choose|j: int| 0 <= j < n && pixel_at(pixels@, j) == other;
                assert(occurrences(pixels@, pixel_at(pixels@, j), n as nat) == occurrences(
                    pixels@,
                    other,
                    n as nat,
                ));
            }
        }
        lemma_mode_unique(pixels@, best);
    }
    best
}

/// Sums the squares of the three channels over the block.
fn square_sums(pixels: &[u8]) -> (sums: (u128, u128, u128))
    ensures
        sums.0 == square_sum(pixels@, 0, pixel_count(pixels@)),
        sums.1 == square_sum(pixels@, 1, pixel_count(pixels@)),
        sums.2 == square_sum(pixels@, 2, pixel_count(pixels@)),
{
    let n = pixels.len() / 3;
    let mut red: u128 = 0;
    let mut green: u128 = 0;
    let mut blue: u128 = 0;
    let mut i: usize = 0;
    while i < n
        invariant
            i <= n,
            n == pixel_count(pixels@),
            3 * n <= pixels.len(),
            red == square_sum(pixels@, 0, i as nat),
            green == square_sum(pixels@, 1, i as nat),
            blue == square_sum(pixels@, 2, i as nat),
        decreases n - i,
    {
        let r = pixels[3 * i] as u128;
        let g = pixels[3 * i + 1] as u128;
        let b = pixels[3 * i + 2] as u128;
        proof {
            lemma_square_sum_bound(pixels@, 0, i as nat);
            lemma_square_sum_bound(pixels@, 1, i as nat);
            lemma_square_sum_bound(pixels@, 2, i as nat);
            assert(r * r <= 65025 && g * g <= 65025 && b * b <= 65025) by (nonlinear_arith)
                requires
                    r <= 255,
                    g <= 255,
                    b <= 255,
            ;
        }
        red = red + r * r;
        green = green + g * g;
        blue = blue + b * b;
        i += 1;
    }
    (red, green, blue)
}

/// The quadratic mean of one channel, from the sum of its squares over `n`
/// pixels.
fn quadratic_mean(sum: u128, n: usize) -> (root: u8)
    requires
        n > 0,
        sum <= n * 65025,
    ensures
        root == floor_sqrt((sum / n as u128) as nat),
{
    let mean = sum / n as u128;
    assert(mean <= 65025) by (nonlinear_arith)
        requires
            mean == sum / n as u128,
            sum <= n * 65025,
            n > 0,
    ;
    let root = isqrt(mean as u32);
    assert(root <= 255) by (nonlinear_arith)
        requires
            root * root <= mean,
            mean <= 65025,
    ;
    root as u8
}

/// The two colours that stand for a block of pixels, three bytes a pixel:
/// first the primary colour (the block's mode blended with its summary), then
/// the summary (channel by channel the quadratic mean, rounded down).
pub fn two_most_dominant(pixels: &[u8]) -> (pair: [Rgb24; 2])
    requires
        pixels@.len() >= 3,
    ensures
        pair[0] == primary(pixels@),
        pair[1] == summary(pixels@),
        is_mode(pixels@, mode(pixels@)),
{
    let n = pixels.len() / 3;
    let (red, green, blue) = square_sums(pixels);
    proof {
        lemma_square_sum_bound(pixels@, 0, n as nat);
        lemma_square_sum_bound(pixels@, 1, n as nat);
        lemma_square_sum_bound(pixels@, 2, n as nat);
    }
    let average = Rgb24 {
        r: quadratic_mean(red, n),
        g: quadratic_mean(green, n),
        b: quadratic_mean(blue, n),
    };
    let counts = count_colours(pixels);
    let most = most_frequent(pixels, &counts);
    // The mode is blended with the summary to soften the edges between blocks.
    let dominant = Rgb24 {
        r: ((most.r as u16 + average.r as u16) / 2) as u8,
        g: ((most.g as u16 + average.g as u16) / 2) as u8,
        b: ((most.b as u16 + average.b as u16) / 2) as u8,
    };
    [dominant, average]
}

/// In a block of equal pixels the colour occurs as often as there are pixels
/// counted, and the squares of a channel sum to so many times its square.
proof fn lemma_uniform_prefix(bytes: Seq<u8>, colour: Rgb24, n: nat)
    requires
        n <= pixel_count(bytes),
        forall|i: int| 0 <= i < pixel_count(bytes) ==> pixel_at(bytes, i) == colour,
    ensures
        occurrences(bytes, colour, n) == n,
        forall|other: Rgb24| other != colour ==> #[trigger] occurrences(bytes, other, n) == 0,
        square_sum(bytes, 0, n) == n * (colour.r * colour.r),
        square_sum(bytes, 1, n) == n * (colour.g * colour.g),
        square_sum(bytes, 2, n) == n * (colour.b * colour.b),
    decreases n,
{
    if n > 0 {
        let m = (n - 1) as nat;
        lemma_uniform_prefix(bytes, colour, m);
        assert(pixel_at(bytes, n - 1) == colour);
        assert forall|other: Rgb24| other != colour implies #[trigger] occurrences(
            bytes,
            other,
            n,
        ) == 0 by {
            assert(occurrences(bytes, other, m) == 0);
        }
        let r = colour.r as nat;
        let g = colour.g as nat;
        let b = colour.b as nat;
        assert(bytes[3 * (n - 1) + 0] == r);
        assert(bytes[3 * (n - 1) + 1] == g);
        assert(bytes[3 * (n - 1) + 2] == b);
        assert(square_sum(bytes, 0, n) == square_sum(bytes, 0, m) + r * r);
        assert(square_sum(bytes, 1, n) == square_sum(bytes, 1, m) + g * g);
        assert(square_sum(bytes, 2, n) == square_sum(bytes, 2, m) + b * b);
        assert(m * (r * r) + r * r == n * (r * r)) by (nonlinear_arith)
            requires
                m + 1 == n,
        ;
        assert(m * (g * g) + g * g == n * (g * g)) by (nonlinear_arith)
            requires
                m + 1 == n,
        ;
        assert(m * (b * b) + b * b == n * (b * b)) by (nonlinear_arith)
            requires
                m + 1 == n,
        ;
    }
}

/// A block of one or more equal pixels has that pixel's colour as its primary
/// colour and as its summary.
pub proof fn lemma_uniform_block(bytes: Seq<u8>, colour: Rgb24)
    requires
        pixel_count(bytes) >= 1,
        forall|i: int| 0 <= i < pixel_count(bytes) ==> pixel_at(bytes, i) == colour,
    ensures
        mode(bytes) == colour,
        summary(bytes) == colour,
        primary(bytes) == colour,
{
    let n = pixel_count(bytes);
    lemma_uniform_prefix(bytes, colour, n);
    assert(is_mode(bytes, colour));
    lemma_mode_unique(bytes, colour);
    lemma_mean_root(n, colour.r as nat);
    lemma_mean_root(n, colour.g as nat);
    lemma_mean_root(n, colour.b as nat);
}

/// The mean of `n` equal squares has the squared value as its root.
proof fn lemma_mean_root(n: nat, value: nat)
    requires
        n >= 1,
    ensures
        floor_sqrt((n * (value * value)) / n) == value,
{
    let square = value * value;
    assert((n * square) / n == square) by (nonlinear_arith)
        requires
            n >= 1,
    ;
    assert(is_floor_sqrt(value, square)) by (nonlinear_arith)
        requires
            square == value * value,
    ;
    lemma_floor_sqrt_unique(value, square);
}

} // verus!
