//! The Z-order (Morton) curve: a position's index interleaves the bits of
//! its coordinates, `x` in the even bits and `y` in the odd bits.
//! Coordinates must fit in 16 bits; as a grid layout, the grid must be a
//! square whose side is a power of two no larger than `2^16`.

use vstd::prelude::*;
use crate::geom::{Pos, Rect, Size};
use crate::layout::{Layout, Linear, Traversal};

verus! {

/// Spreads the low 16 bits of `n` onto the even bits of a word.
pub open spec fn spread(n: u32) -> u32 {
    let a = (n | (n << 8u32)) & 0x00ff_00ffu32;
    let b = (a | (a << 4u32)) & 0x0f0f_0f0fu32;
    let c = (b | (b << 2u32)) & 0x3333_3333u32;
    (c | (c << 1u32)) & 0x5555_5555u32
}

/// Gathers the even bits of `n` into its low 16 bits.
pub open spec fn compact(n: u32) -> u32 {
    let a = n & 0x5555_5555u32;
    let b = (a | (a >> 1u32)) & 0x3333_3333u32;
    let c = (b | (b >> 2u32)) & 0x0f0f_0f0fu32;
    let d = (c | (c >> 4u32)) & 0x00ff_00ffu32;
    (d | (d >> 8u32)) & 0x0000_ffffu32
}

/// The Z-order index of the cell at `(x, y)`.
pub open spec fn interleave(x: u32, y: u32) -> u32 {
    spread(x) | (spread(y) << 1u32)
}

fn spread_bits(n: u32) -> (r: u32)
    ensures
        r == spread(n),
{
    let a = (n | (n << 8u32)) & 0x00ff_00ffu32;
    let b = (a | (a << 4u32)) & 0x0f0f_0f0fu32;
    let c = (b | (b << 2u32)) & 0x3333_3333u32;
    (c | (c << 1u32)) & 0x5555_5555u32
}

fn compact_bits(n: u32) -> (r: u32)
    ensures
        r == compact(n),
{
    let a = n & 0x5555_5555u32;
    let b = (a | (a >> 1u32)) & 0x3333_3333u32;
    let c = (b | (b >> 2u32)) & 0x0f0f_0f0fu32;
    let d = (c | (c >> 4u32)) & 0x00ff_00ffu32;
    (d | (d >> 8u32)) & 0x0000_ffffu32
}

/// The Z-order index of `pos`, whose coordinates must fit in 16 bits.
pub fn encode(pos: Pos) -> (r: usize)
    requires
        pos.x < 0x1_0000,
        pos.y < 0x1_0000,
    ensures
        r == interleave(pos.x as u32, pos.y as u32),
{
    let x = spread_bits(pos.x as u32);
    let y = spread_bits(pos.y as u32);
    (x | (y << 1u32)) as usize
}

/// The position whose Z-order index is `index`, which must fit in 32 bits.
pub fn decode(index: usize) -> (r: Pos)
    requires
        index <= u32::MAX,
    ensures
        r.x == compact(index as u32),
        r.y == compact((index as u32) >> 1u32),
{
    let i = index as u32;
    let x = compact_bits(i);
    let y = compact_bits(i >> 1u32);
    Pos { x: x as usize, y: y as usize }
}

/// Decoding the Z-order index of a position whose coordinates fit in 16
/// bits gives the position back.
pub proof fn lemma_round_trip(x: u32, y: u32)
    requires
        x < 0x1_0000,
        y < 0x1_0000,
    ensures
        compact(interleave(x, y)) == x,
        compact(interleave(x, y) >> 1u32) == y,
{
    let xa = (x | (x << 8u32)) & 0x00ff_00ffu32;
    let xb = (xa | (xa << 4u32)) & 0x0f0f_0f0fu32;
    let xc = (xb | (xb << 2u32)) & 0x3333_3333u32;
    let sx = (xc | (xc << 1u32)) & 0x5555_5555u32;
    let ya = (y | (y << 8u32)) & 0x00ff_00ffu32;
    let yb = (ya | (ya << 4u32)) & 0x0f0f_0f0fu32;
    let yc = (yb | (yb << 2u32)) & 0x3333_3333u32;
    let sy = (yc | (yc << 1u32)) & 0x5555_5555u32;
    let m = sx | (sy << 1u32);
    assert(m == interleave(x, y));
    assert(m & 0x5555_5555u32 == sx && (m >> 1u32) & 0x5555_5555u32 == sy) by (bit_vector)
        requires
            sx == (xc | (xc << 1u32)) & 0x5555_5555u32,
            sy == (yc | (yc << 1u32)) & 0x5555_5555u32,
            m == sx | (sy << 1u32),
    ;
    lemma_compact_spread(x);
    lemma_compact_spread(y);
    assert(compact(m) == compact(m & 0x5555_5555u32)) by {
        lemma_compact_masked(m);
    }
    assert(compact(m >> 1u32) == compact((m >> 1u32) & 0x5555_5555u32)) by {
        lemma_compact_masked(m >> 1u32);
    }
}

/// Compacting reads only the even bits.
proof fn lemma_compact_masked(n: u32)
    ensures
        compact(n) == compact(n & 0x5555_5555u32),
{
    let m = n & 0x5555_5555u32;
    assert(m & 0x5555_5555u32 == n & 0x5555_5555u32) by (bit_vector)
        requires
            m == n & 0x5555_5555u32,
    ;
}

/// Compacting a spread 16-bit value gives it back.
proof fn lemma_compact_spread(x: u32)
    requires
        x < 0x1_0000,
    ensures
        compact(spread(x)) == x,
{
    let xa = (x | (x << 8u32)) & 0x00ff_00ffu32;
    let xb = (xa | (xa << 4u32)) & 0x0f0f_0f0fu32;
    let xc = (xb | (xb << 2u32)) & 0x3333_3333u32;
    let sx = (xc | (xc << 1u32)) & 0x5555_5555u32;
    let a = sx & 0x5555_5555u32;
    let b = (a | (a >> 1u32)) & 0x3333_3333u32;
    let c = (b | (b >> 2u32)) & 0x0f0f_0f0fu32;
    let d = (c | (c >> 4u32)) & 0x00ff_00ffu32;
    let e = (d | (d >> 8u32)) & 0x0000_ffffu32;
    assert(e == x) by (bit_vector)
        requires
            x < 0x1_0000u32,
            xa == (x | (x << 8u32)) & 0x00ff_00ffu32,
            xb == (xa | (xa << 4u32)) & 0x0f0f_0f0fu32,
            xc == (xb | (xb << 2u32)) & 0x3333_3333u32,
            sx == (xc | (xc << 1u32)) & 0x5555_5555u32,
            a == sx & 0x5555_5555u32,
            b == (a | (a >> 1u32)) & 0x3333_3333u32,
            c == (b | (b >> 2u32)) & 0x0f0f_0f0fu32,
            d == (c | (c >> 4u32)) & 0x00ff_00ffu32,
            e == (d | (d >> 8u32)) & 0x0000_ffffu32,
    ;
}

/// Whether `w` is a power of two no larger than `2^15`.
pub open spec fn is_small_side(w: u32) -> bool {
    0 < w <= 0x8000 && w & ((w - 1) as u32) == 0
}

/// Inside a square of power-of-two side, every index lies below the square's
/// area, and every index below the area decodes to a position inside it.
proof fn lemma_bounds(w: u32, x: u32, y: u32, i: u32)
    requires
        is_small_side(w),
    ensures
        x < w && y < w ==> interleave(x, y) < w * w,
        i < w * w ==> compact(i) < w && compact(i >> 1u32) < w,
{
    let xa = (x | (x << 8u32)) & 0x00ff_00ffu32;
    let xb = (xa | (xa << 4u32)) & 0x0f0f_0f0fu32;
    let xc = (xb | (xb << 2u32)) & 0x3333_3333u32;
    let sx = (xc | (xc << 1u32)) & 0x5555_5555u32;
    let ya = (y | (y << 8u32)) & 0x00ff_00ffu32;
    let yb = (ya | (ya << 4u32)) & 0x0f0f_0f0fu32;
    let yc = (yb | (yb << 2u32)) & 0x3333_3333u32;
    let sy = (yc | (yc << 1u32)) & 0x5555_5555u32;
    assert(x < w && y < w ==> sx | (sy << 1u32) < w * w) by (bit_vector)
        requires
            0 < w <= 0x8000u32,
            w & ((w - 1u32) as u32) == 0u32,
            xa == (x | (x << 8u32)) & 0x00ff_00ffu32,
            xb == (xa | (xa << 4u32)) & 0x0f0f_0f0fu32,
            xc == (xb | (xb << 2u32)) & 0x3333_3333u32,
            sx == (xc | (xc << 1u32)) & 0x5555_5555u32,
            ya == (y | (y << 8u32)) & 0x00ff_00ffu32,
            yb == (ya | (ya << 4u32)) & 0x0f0f_0f0fu32,
            yc == (yb | (yb << 2u32)) & 0x3333_3333u32,
            sy == (yc | (yc << 1u32)) & 0x5555_5555u32,
    ;
    let j = i >> 1u32;
    let a = i & 0x5555_5555u32;
    let b = (a | (a >> 1u32)) & 0x3333_3333u32;
    let c = (b | (b >> 2u32)) & 0x0f0f_0f0fu32;
    let d = (c | (c >> 4u32)) & 0x00ff_00ffu32;
    let e = (d | (d >> 8u32)) & 0x0000_ffffu32;
    let ja = j & 0x5555_5555u32;
    let jb = (ja | (ja >> 1u32)) & 0x3333_3333u32;
    let jc = (jb | (jb >> 2u32)) & 0x0f0f_0f0fu32;
    let jd = (jc | (jc >> 4u32)) & 0x00ff_00ffu32;
    let je = (jd | (jd >> 8u32)) & 0x0000_ffffu32;
    assert(i < w * w ==> e < w && je < w) by (bit_vector)
        requires
            0 < w <= 0x8000u32,
            w & ((w - 1u32) as u32) == 0u32,
            j == i >> 1u32,
            a == i & 0x5555_5555u32,
            b == (a | (a >> 1u32)) & 0x3333_3333u32,
            c == (b | (b >> 2u32)) & 0x0f0f_0f0fu32,
            d == (c | (c >> 4u32)) & 0x00ff_00ffu32,
            e == (d | (d >> 8u32)) & 0x0000_ffffu32,
            ja == j & 0x5555_5555u32,
            jb == (ja | (ja >> 1u32)) & 0x3333_3333u32,
            jc == (jb | (jb >> 2u32)) & 0x0f0f_0f0fu32,
            jd == (jc | (jc >> 4u32)) & 0x00ff_00ffu32,
            je == (jd | (jd >> 8u32)) & 0x0000_ffffu32,
    ;
}

/// Interleaving the two halves that an index decodes to gives the index back.
proof fn lemma_interleave_compact(i: u32)
    ensures
        interleave(compact(i), compact(i >> 1u32)) == i,
{
    let x = compact(i);
    let y = compact(i >> 1u32);
    let j = i >> 1u32;
    let a = i & 0x5555_5555u32;
    let b = (a | (a >> 1u32)) & 0x3333_3333u32;
    let c = (b | (b >> 2u32)) & 0x0f0f_0f0fu32;
    let d = (c | (c >> 4u32)) & 0x00ff_00ffu32;
    let ja = j & 0x5555_5555u32;
    let jb = (ja | (ja >> 1u32)) & 0x3333_3333u32;
    let jc = (jb | (jb >> 2u32)) & 0x0f0f_0f0fu32;
    let jd = (jc | (jc >> 4u32)) & 0x00ff_00ffu32;
    let xa = (x | (x << 8u32)) & 0x00ff_00ffu32;
    let xb = (xa | (xa << 4u32)) & 0x0f0f_0f0fu32;
    let xc = (xb | (xb << 2u32)) & 0x3333_3333u32;
    let sx = (xc | (xc << 1u32)) & 0x5555_5555u32;
    let ya = (y | (y << 8u32)) & 0x00ff_00ffu32;
    let yb = (ya | (ya << 4u32)) & 0x0f0f_0f0fu32;
    let yc = (yb | (yb << 2u32)) & 0x3333_3333u32;
    let sy = (yc | (yc << 1u32)) & 0x5555_5555u32;
    assert(sx | (sy << 1u32) == i) by (bit_vector)
        requires
            j == i >> 1u32,
            a == i & 0x5555_5555u32,
            b == (a | (a >> 1u32)) & 0x3333_3333u32,
            c == (b | (b >> 2u32)) & 0x0f0f_0f0fu32,
            d == (c | (c >> 4u32)) & 0x00ff_00ffu32,
            x == (d | (d >> 8u32)) & 0x0000_ffffu32,
            ja == j & 0x5555_5555u32,
            jb == (ja | (ja >> 1u32)) & 0x3333_3333u32,
            jc == (jb | (jb >> 2u32)) & 0x0f0f_0f0fu32,
            jd == (jc | (jc >> 4u32)) & 0x00ff_00ffu32,
            y == (jd | (jd >> 8u32)) & 0x0000_ffffu32,
            xa == (x | (x << 8u32)) & 0x00ff_00ffu32,
            xb == (xa | (xa << 4u32)) & 0x0f0f_0f0fu32,
            xc == (xb | (xb << 2u32)) & 0x3333_3333u32,
            sx == (xc | (xc << 1u32)) & 0x5555_5555u32,
            ya == (y | (y << 8u32)) & 0x00ff_00ffu32,
            yb == (ya | (ya << 4u32)) & 0x0f0f_0f0fu32,
            yc == (yb | (yb << 2u32)) & 0x3333_3333u32,
            sy == (yc | (yc << 1u32)) & 0x5555_5555u32,
    ;
}

/// Bit `2i` of the Z-order index of `(x, y)` is bit `i` of `x`, and bit
/// `2i + 1` is bit `i` of `y`.
pub proof fn lemma_interleave_bits(x: u32, y: u32, i: u32)
    requires
        x < 0x1_0000,
        y < 0x1_0000,
        i < 16,
    ensures
        (interleave(x, y) >> ((2 * i) as u32)) & 1u32 == (x >> i) & 1u32,
        (interleave(x, y) >> ((2 * i + 1) as u32)) & 1u32 == (y >> i) & 1u32,
{
    let xa = (x | (x << 8u32)) & 0x00ff_00ffu32;
    let xb = (xa | (xa << 4u32)) & 0x0f0f_0f0fu32;
    let xc = (xb | (xb << 2u32)) & 0x3333_3333u32;
    let sx = (xc | (xc << 1u32)) & 0x5555_5555u32;
    let ya = (y | (y << 8u32)) & 0x00ff_00ffu32;
    let yb = (ya | (ya << 4u32)) & 0x0f0f_0f0fu32;
    let yc = (yb | (yb << 2u32)) & 0x3333_3333u32;
    let sy = (yc | (yc << 1u32)) & 0x5555_5555u32;
    let m = sx | (sy << 1u32);
    let even = (2 * i) as u32;
    let odd = (2 * i + 1) as u32;
    assert(m == interleave(x, y));
    assert((m >> even) & 1u32 == (x >> i) & 1u32 && (m >> odd) & 1u32 == (y >> i) & 1u32)
        by (bit_vector)
        requires
            x < 0x1_0000u32,
            y < 0x1_0000u32,
            i < 16u32,
            even == i + i,
            odd == i + i + 1u32,
            xa == (x | (x << 8u32)) & 0x00ff_00ffu32,
            xb == (xa | (xa << 4u32)) & 0x0f0f_0f0fu32,
            xc == (xb | (xb << 2u32)) & 0x3333_3333u32,
            sx == (xc | (xc << 1u32)) & 0x5555_5555u32,
            ya == (y | (y << 8u32)) & 0x00ff_00ffu32,
            yb == (ya | (ya << 4u32)) & 0x0f0f_0f0fu32,
            yc == (yb | (yb << 2u32)) & 0x3333_3333u32,
            sy == (yc | (yc << 1u32)) & 0x5555_5555u32,
            m == sx | (sy << 1u32),
    ;
}

/// Whether `w` is a side the Z-order layout supports: a power of two no
/// larger than `2^16`.
pub open spec fn is_side(w: usize) -> bool {
    w == 0x1_0000 || w <= 0x8000 && is_small_side(w as u32)
}

/// Compacting keeps only 16 bits.
proof fn lemma_compact_bound(n: u32)
    ensures
        compact(n) <= 0xffff,
{
    let a = n & 0x5555_5555u32;
    let b = (a | (a >> 1u32)) & 0x3333_3333u32;
    let c = (b | (b >> 2u32)) & 0x0f0f_0f0fu32;
    let d = (c | (c >> 4u32)) & 0x00ff_00ffu32;
    let e = (d | (d >> 8u32)) & 0x0000_ffffu32;
    assert(e <= 0xffffu32) by (bit_vector)
        requires
            e == (d | (d >> 8u32)) & 0x0000_ffffu32,
    ;
}

/// In a square grid of a supported side `w`: the area `w * w` is at most
/// `2^32`, the Z-order index of a cell lies below it, and an index below it
/// decodes to a cell.
proof fn lemma_square(size: Size, x: u32, y: u32, i: u32)
    requires
        size.width == size.height,
        is_side(size.width),
    ensures
        size.area() == (size.width as int) * (size.width as int),
        size.area() <= 0x1_0000_0000,
        x < size.width && y < size.width ==> interleave(x, y) < size.area(),
        i < size.area() ==> compact(i) < size.width && compact(i >> 1u32) < size.width,
{
    let w = size.width as int;
    assert(w * w <= 0x1_0000_0000) by (nonlinear_arith)
        requires
            0 <= w <= 0x1_0000,
    ;
    if size.width == 0x1_0000 {
        assert(size.area() == 0x1_0000_0000) by (nonlinear_arith)
            requires
                size.area() == w * w,
                w == 0x1_0000,
        ;
        lemma_compact_bound(i);
        lemma_compact_bound(i >> 1u32);
    } else {
        lemma_bounds(size.width as u32, x, y, i);
    }
}

/// The Z-order curve as a linear layout, for square grids whose side is a
/// power of two no larger than `2^16`. Cells are visited row by row; only a
/// single cell is one run of the buffer in that order.
pub struct ZOrder;

impl Layout for ZOrder {
    open spec fn traversal() -> Traversal {
        Traversal::RowMajor
    }

    fn kind() -> (r: Traversal) {
        Traversal::RowMajor
    }
}

impl Linear for ZOrder {
    open spec fn index_of(p: Pos, size: Size) -> int {
        interleave(p.x as u32, p.y as u32) as int
    }

    open spec fn pos_of(i: int, size: Size) -> Pos {
        Pos { x: compact(i as u32) as usize, y: compact((i as u32) >> 1u32) as usize }
    }

    open spec fn aligned(size: Size, rect: Rect) -> bool {
        rect.width == 1 && rect.height == 1
    }

    open spec fn supports(size: Size) -> bool {
        size.width == size.height && is_side(size.width)
    }

    fn supports_size(size: Size) -> (r: bool) {
        if size.width != size.height || size.width == 0 || size.width > 0x1_0000 {
            return false;
        }
        if size.width == 0x1_0000 {
            return true;
        }
        let w = size.width as u32;
        w <= 0x8000 && w & (w - 1) == 0
    }

    proof fn lemma_index_of(p: Pos, size: Size) {
        lemma_square(size, p.x as u32, p.y as u32, 0);
        lemma_round_trip(p.x as u32, p.y as u32);
    }

    proof fn lemma_pos_of(i: int, size: Size) {
        lemma_square(size, 0, 0, i as u32);
        lemma_interleave_compact(i as u32);
    }

    fn to_1d(pos: Pos, size: Size) -> (r: usize) {
        encode(pos)
    }

    fn to_2d(index: usize, size: Size) -> (r: Pos) {
        proof {
            lemma_square(size, 0, 0, index as u32);
        }
        decode(index)
    }

    fn rect_to_range(size: Size, rect: Rect) -> (r: Option<(usize, usize)>) {
        if rect.width != 1 || rect.height != 1 {
            return None;
        }
        let corner = Pos::new(rect.left, rect.top);
        proof {
            Self::lemma_index_of(corner, size);
            assert(crate::layout::order_at(Traversal::RowMajor, rect, 0) == corner);
            assert(rect.spec_size().area() == 1) by (nonlinear_arith)
                requires
                    rect.width == 1,
                    rect.height == 1,
            ;
        }
        let start = encode(corner);
        assert(Self::index_of(corner, size) == start);
        Some((start, start + 1))
    }
}

} // verus!
