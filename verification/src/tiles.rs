//! The sampling grid: how an image is cut into tiles of a fixed size.

use vstd::arithmetic::div_mod::{lemma_fundamental_div_mod, lemma_mod_bound};
use vstd::prelude::*;

verus! {

/// How many tiles of `size` pixels cover `length` pixels: `length / size`,
/// rounded up.
pub open spec fn tile_count(length: int, size: int) -> int {
    (length + size - 1) / size
}

/// The first pixel of the tile at `index`.
pub open spec fn tile_start(index: int, size: int) -> int {
    index * size
}

/// The pixel after the last one of the tile at `index`: the tile is cut off
/// where the image ends.
pub open spec fn tile_end(index: int, size: int, length: int) -> int {
    if (index + 1) * size < length {
        (index + 1) * size
    } else {
        length
    }
}

/// The tiles cover the image, the last one starts inside it, and there are
/// no more tiles than pixels.
pub proof fn lemma_tile_count(length: int, size: int)
    requires
        0 <= length,
        0 < size,
    ensures
        0 <= tile_count(length, size) <= length,
        length <= tile_count(length, size) * size,
        length > 0 ==> (tile_count(length, size) - 1) * size < length,
        length == 0 <==> tile_count(length, size) == 0,
{
    let count = tile_count(length, size);
    let rest = (length + size - 1) % size;
    lemma_fundamental_div_mod(length + size - 1, size);
    lemma_mod_bound(length + size - 1, size);
    assert(length + size - 1 == size * count + rest);
    assert(count * size == size * count && (count - 1) * size == size * count - size)
        by (nonlinear_arith);
    if count < 0 {
        assert(size * count <= -size) by (nonlinear_arith)
            requires
                count <= -1,
                size > 0,
        ;
    }
    if count > 0 {
        assert((count - 1) * size >= count - 1 && size * count >= size) by (nonlinear_arith)
            requires
                count >= 1,
                size >= 1,
        ;
    } else {
        assert(size * count == 0) by (nonlinear_arith)
            requires
                count == 0,
        ;
    }
}

/// Every tile of the grid holds at least one pixel and ends inside the
/// image.
pub proof fn lemma_tile_span(index: int, size: int, length: int)
    requires
        0 < size,
        0 <= index < tile_count(length, size),
        0 <= length,
    ensures
        0 <= tile_start(index, size) < tile_end(index, size, length) <= length,
        tile_end(index, size, length) - tile_start(index, size) <= size,
{
    lemma_tile_count(length, size);
    let count = tile_count(length, size);
    assert(0 <= index * size <= (count - 1) * size) by (nonlinear_arith)
        requires
            0 <= index <= count - 1,
            size > 0,
    ;
    assert((index + 1) * size == index * size + size) by (nonlinear_arith);
}

/// How many tiles of `size` pixels cover `length` pixels.
pub fn count_tiles(length: u32, size: u32) -> (count: u32)
    requires
        size > 0,
    ensures
        count == tile_count(length as int, size as int),
{
    proof {
        lemma_tile_count(length as int, size as int);
    }
    ((length as u64 + size as u64 - 1) / size as u64) as u32
}

/// The pixels that the tile at `index` spans: its first pixel and the one
/// after its last.
pub fn tile_span(index: u32, size: u32, length: u32) -> (span: (u32, u32))
    requires
        size > 0,
        index < tile_count(length as int, size as int),
    ensures
        span.0 == tile_start(index as int, size as int),
        span.1 == tile_end(index as int, size as int, length as int),
        span.0 < span.1 <= length,
        span.1 - span.0 <= size,
{
    proof {
        lemma_tile_span(index as int, size as int, length as int);
        assert((index + 1) * size == index * size + size) by (nonlinear_arith);
    }
    let start: u64 = index as u64 * size as u64;
    let end: u64 = if start + (size as u64) < length as u64 {
        start + size as u64
    } else {
        length as u64
    };
    (start as u32, end as u32)
}

} // verus!
