//! Traversal orders over rectangles, and the mapping of positions onto a
//! linear buffer.

use vstd::arithmetic::div_mod::{
    lemma_div_pos_is_pos, lemma_fundamental_div_mod, lemma_fundamental_div_mod_converse,
    lemma_mod_pos_bound,
};
use vstd::prelude::*;
use ixy::layout::LinearLayout;
use std::marker::PhantomData;
use crate::geom::{Pos, Rect, Size};

verus! {

/// The order in which the cells of a rectangle are visited.
#[derive(Debug, Clone, Copy, PartialEq, Eq, Structural)]
pub enum Traversal {
    /// Left to right, then top to bottom.
    RowMajor,
    /// Top to bottom, then left to right.
    ColumnMajor,
}

/// The `k`-th position visited in `rect`.
pub open spec fn order_at(t: Traversal, rect: Rect, k: int) -> Pos {
    match t {
        Traversal::RowMajor => Pos {
            x: (rect.left + k % (rect.width as int)) as usize,
            y: (rect.top + k / (rect.width as int)) as usize,
        },
        Traversal::ColumnMajor => Pos {
            x: (rect.left + k / (rect.height as int)) as usize,
            y: (rect.top + k % (rect.height as int)) as usize,
        },
    }
}

/// Every position of `rect`, in the order of `t`.
pub open spec fn order(t: Traversal, rect: Rect) -> Seq<Pos> {
    Seq::new(rect.spec_size().area(), |k: int| order_at(t, rect, k))
}

/// At which step of the order of `t` the position `p` of `rect` is visited.
pub open spec fn rank(t: Traversal, rect: Rect, p: Pos) -> int {
    match t {
        Traversal::RowMajor => (p.y - rect.top) * rect.width + (p.x - rect.left),
        Traversal::ColumnMajor => (p.x - rect.left) * rect.height + (p.y - rect.top),
    }
}

/// `k` below `d * n` splits into a quotient below `n` and a remainder below `d`.
pub proof fn lemma_split(k: int, d: int, n: int)
    requires
        0 <= k < d * n,
        d > 0,
    ensures
        0 <= k % d < d,
        0 <= k / d < n,
        k == (k / d) * d + k % d,
{
    lemma_fundamental_div_mod(k, d);
    lemma_mod_pos_bound(k, d);
    lemma_div_pos_is_pos(k, d);
    let q = k / d;
    let r = k % d;
    assert(q < n) by (nonlinear_arith)
        requires
            k == d * q + r,
            0 <= r,
            k < d * n,
            d > 0,
    ;
    assert(k == q * d + r) by (nonlinear_arith)
        requires
            k == d * q + r,
    ;
}

/// A quotient below `n` and a remainder below `d` join into a number below `d * n`.
pub proof fn lemma_join(q: int, r: int, d: int, n: int)
    requires
        0 <= q < n,
        0 <= r < d,
    ensures
        0 <= q * d + r < d * n,
        (q * d + r) / d == q,
        (q * d + r) % d == r,
{
    lemma_fundamental_div_mod_converse(q * d + r, d, q, r);
    assert(0 <= q * d + r < d * n) by (nonlinear_arith)
        requires
            0 <= q < n,
            0 <= r < d,
    ;
}

/// The order of `t` visits each position of `rect` exactly once.
pub proof fn lemma_order(t: Traversal, rect: Rect)
    requires
        rect.wf(),
    ensures
        forall|k: int|
            0 <= k < rect.spec_size().area() ==> {
                &&& #[trigger] rect.spec_contains(order_at(t, rect, k))
                &&& rank(t, rect, order_at(t, rect, k)) == k
            },
        forall|p: Pos|
            #[trigger] rect.spec_contains(p) ==> {
                &&& 0 <= rank(t, rect, p) < rect.spec_size().area()
                &&& order_at(t, rect, rank(t, rect, p)) == p
            },
{
    let w = rect.width as int;
    let h = rect.height as int;
    assert forall|k: int| 0 <= k < rect.spec_size().area() implies {
        &&& #[trigger] rect.spec_contains(order_at(t, rect, k))
        &&& rank(t, rect, order_at(t, rect, k)) == k
    } by {
        match t {
            Traversal::RowMajor => {
                assert(w * h == h * w) by (nonlinear_arith);
                lemma_split(k, w, h);
            },
            Traversal::ColumnMajor => {
                lemma_split(k, h, w);
            },
        }
    }
    assert forall|p: Pos| #[trigger] rect.spec_contains(p) implies {
        &&& 0 <= rank(t, rect, p) < rect.spec_size().area()
        &&& order_at(t, rect, rank(t, rect, p)) == p
    } by {
        match t {
            Traversal::RowMajor => {
                assert(w * h == h * w) by (nonlinear_arith);
                lemma_join(p.y - rect.top, p.x - rect.left, w, h);
            },
            Traversal::ColumnMajor => {
                lemma_join(p.x - rect.left, p.y - rect.top, h, w);
            },
        }
    }
}

/// Two rectangles of one size are visited at the same offsets from their corners.
pub proof fn lemma_order_shift(t: Traversal, a: Rect, b: Rect, k: int)
    requires
        a.wf(),
        b.wf(),
        a.width == b.width,
        a.height == b.height,
        0 <= k < a.spec_size().area(),
    ensures
        order_at(t, b, k).x == b.left + (order_at(t, a, k).x - a.left),
        order_at(t, b, k).y == b.top + (order_at(t, a, k).y - a.top),
{
    let w = a.width as int;
    let h = a.height as int;
    assert(w * h == h * w) by (nonlinear_arith);
    match t {
        Traversal::RowMajor => {
            lemma_positive_side(k, w, h);
            lemma_split(k, w, h);
        },
        Traversal::ColumnMajor => {
            lemma_positive_side(k, h, w);
            lemma_split(k, h, w);
        },
    }
}

/// The `k`-th position visited in `rect` under `t`.
pub fn pos_at(t: Traversal, rect: Rect, k: usize) -> (r: Pos)
    requires
        rect.wf(),
        k < rect.spec_size().area(),
    ensures
        r == order_at(t, rect, k as int),
        rect.spec_contains(r),
{
    proof {
        lemma_order(t, rect);
        assert(rect.spec_contains(order_at(t, rect, k as int)));
        let w = rect.width as int;
        let h = rect.height as int;
        match t {
            Traversal::RowMajor => {
                assert(w * h == h * w) by (nonlinear_arith);
                lemma_split(k as int, w, h);
            },
            Traversal::ColumnMajor => {
                assert(w * h == h * w) by (nonlinear_arith);
                lemma_split(k as int, h, w);
            },
        }
    }
    match t {
        Traversal::RowMajor => Pos { x: rect.left + k % rect.width, y: rect.top + k / rect.width },
        Traversal::ColumnMajor => Pos {
            x: rect.left + k / rect.height,
            y: rect.top + k % rect.height,
        },
    }
}

/// Every position of `rect`, in the order of `t`.
pub fn positions(t: Traversal, rect: Rect) -> (r: Vec<Pos>)
    requires
        rect.wf(),
        rect.spec_size().fits(),
    ensures
        r@ == order(t, rect),
{
    let n = rect.width * rect.height;
    let mut v: Vec<Pos> = Vec::new();
    let mut k: usize = 0;
    while k < n
        invariant
            rect.wf(),
            n == rect.spec_size().area(),
            k <= n,
            v@.len() == k,
            forall|j: int| 0 <= j < k ==> v@[j] == order_at(t, rect, j),
        decreases n - k,
    {
        let p = pos_at(t, rect, k);
        v.push(p);
        k = k + 1;
    }
    assert(v@ =~= order(t, rect));
    v
}

/// A strategy that fixes the order in which the cells of a rectangle are visited.
pub trait Layout {
    /// The order this layout visits cells in.
    spec fn traversal() -> Traversal;

    /// The order this layout visits cells in.
    fn kind() -> (r: Traversal)
        ensures
            r == Self::traversal(),
    ;

    /// The positions of `rect`, in this layout's order.
    fn iter_pos(rect: Rect) -> (r: Vec<Pos>)
        requires
            rect.wf(),
            rect.spec_size().fits(),
        ensures
            r@ == order(Self::traversal(), rect),
    {
        positions(Self::kind(), rect)
    }
}

/// A layout that stores the cells of a grid in one linear buffer.
pub trait Linear: Layout {
    /// The buffer index of position `p` in a grid of the given size.
    spec fn index_of(p: Pos, size: Size) -> int;

    /// The position stored at buffer index `i` in a grid of the given size.
    spec fn pos_of(i: int, size: Size) -> Pos;

    /// Whether the cells of `rect` form one contiguous run of the buffer.
    spec fn aligned(size: Size, rect: Rect) -> bool;

    /// Whether this layout can arrange a grid of the given size.
    spec fn supports(size: Size) -> bool;

    /// Whether this layout can arrange a grid of the given size.
    fn supports_size(size: Size) -> (r: bool)
        ensures
            r == Self::supports(size),
    ;

    /// Each cell of the grid has an index in range, from which its position comes back.
    proof fn lemma_index_of(p: Pos, size: Size)
        requires
            Self::supports(size),
            size.spec_contains(p),
        ensures
            0 <= Self::index_of(p, size) < size.area(),
            Self::pos_of(Self::index_of(p, size), size) == p,
    ;

    /// Each index in range names a cell of the grid, whose index comes back.
    proof fn lemma_pos_of(i: int, size: Size)
        requires
            Self::supports(size),
            0 <= i < size.area(),
        ensures
            size.spec_contains(Self::pos_of(i, size)),
            Self::index_of(Self::pos_of(i, size), size) == i,
    ;

    /// The buffer index of `pos`.
    fn to_1d(pos: Pos, size: Size) -> (r: usize)
        requires
            Self::supports(size),
            size.spec_contains(pos),
            size.fits(),
        ensures
            r == Self::index_of(pos, size),
    ;

    /// The position stored at buffer index `index`.
    fn to_2d(index: usize, size: Size) -> (r: Pos)
        requires
            Self::supports(size),
            size.fits(),
            index < size.area(),
        ensures
            r == Self::pos_of(index as int, size),
    ;

    /// The run of buffer indices `[start, end)` that holds `rect`, if it is one run.
    fn rect_to_range(size: Size, rect: Rect) -> (r: Option<(usize, usize)>)
        requires
            Self::supports(size),
            size.spec_contains_rect(rect),
            size.fits(),
        ensures
            r.is_some() == Self::aligned(size, rect),
            r matches Some((s, e)) ==> {
                &&& s <= e <= size.area()
                &&& e - s == rect.spec_size().area()
                &&& forall|k: int|
                    0 <= k < e - s ==> Self::index_of(
                        #[trigger] order_at(Self::traversal(), rect, k),
                        size,
                    ) == s + k
            },
    ;
}

/// For every linear layout, turning a position inside the grid into its
/// buffer index and that index back into a position gives the position back.
pub proof fn lemma_linear_round_trip<L: Linear>(p: Pos, size: Size)
    requires
        L::supports(size),
        size.spec_contains(p),
    ensures
        L::pos_of(L::index_of(p, size), size) == p,
        0 <= L::index_of(p, size) < size.area(),
{
    L::lemma_index_of(p, size);
}

/// Left-to-right, top-to-bottom order: `index = y * width + x`.
pub struct RowMajor;

/// The visiting order of `L`, for grids whose elements are not stored in one
/// linear buffer.
pub struct Sparse<L> {
    layout: PhantomData<L>,
}

impl<L: Layout> Layout for Sparse<L> {
    open spec fn traversal() -> Traversal {
        L::traversal()
    }

    fn kind() -> (r: Traversal) {
        L::kind()
    }
}

/// Top-to-bottom, left-to-right order: `index = x * height + y`.
pub struct ColumnMajor;

/// Relies on ixy's `RowMajor::pos_to_index`: `y * stride + x`.
#[verifier::external_body]
fn row_major_index(x: usize, y: usize, stride: usize) -> (r: usize)
    requires
        y * stride + x <= usize::MAX,
    ensures
        r == y * stride + x,
{
    ixy::layout::RowMajor::pos_to_index(ixy::Pos::new(x, y), stride)
}

/// Relies on ixy's `RowMajor::index_to_pos`: `x = index % stride`, `y = index / stride`.
#[verifier::external_body]
fn row_major_pos(index: usize, stride: usize) -> (r: Pos)
    requires
        stride > 0,
    ensures
        r.x == index % stride,
        r.y == index / stride,
{
    let p: ixy::Pos<usize> = ixy::layout::RowMajor::index_to_pos(index, stride);
    Pos { x: p.x, y: p.y }
}

/// Relies on ixy's `RowMajor::rect_to_range`: a rectangle one row high, or as
/// wide as the grid, is the run that starts at its top-left cell.
#[verifier::external_body]
fn row_major_range(size: Size, rect: Rect) -> (r: Option<(usize, usize)>)
    requires
        rect.height == 1 || rect.width == size.width ==> rect.top * size.width + rect.left
            + rect.width * rect.height <= usize::MAX,
    ensures
        r == (if rect.height != 1 && rect.width != size.width {
            None
        } else {
            Some(
                (
                    (rect.top * size.width + rect.left) as usize,
                    (rect.top * size.width + rect.left + rect.width * rect.height) as usize,
                ),
            )
        }),
{
    let grid = ixy::Size::new(size.width, size.height);
    let area = ixy::Rect::from_ltwh(rect.left, rect.top, rect.width, rect.height);
    ixy::layout::RowMajor::rect_to_range(grid, area).map(|range| (range.start, range.end))
}

/// Relies on ixy's `ColumnMajor::pos_to_index`: `x * stride + y`.
#[verifier::external_body]
fn col_major_index(x: usize, y: usize, stride: usize) -> (r: usize)
    requires
        x * stride + y <= usize::MAX,
    ensures
        r == x * stride + y,
{
    ixy::layout::ColumnMajor::pos_to_index(ixy::Pos::new(x, y), stride)
}

/// Relies on ixy's `ColumnMajor::index_to_pos`: `x = index / stride`, `y = index % stride`.
#[verifier::external_body]
fn col_major_pos(index: usize, stride: usize) -> (r: Pos)
    requires
        stride > 0,
    ensures
        r.x == index / stride,
        r.y == index % stride,
{
    let p: ixy::Pos<usize> = ixy::layout::ColumnMajor::index_to_pos(index, stride);
    Pos { x: p.x, y: p.y }
}

impl Layout for RowMajor {
    open spec fn traversal() -> Traversal {
        Traversal::RowMajor
    }

    fn kind() -> (r: Traversal) {
        Traversal::RowMajor
    }
}

impl Layout for ColumnMajor {
    open spec fn traversal() -> Traversal {
        Traversal::ColumnMajor
    }

    fn kind() -> (r: Traversal) {
        Traversal::ColumnMajor
    }
}

impl Linear for RowMajor {
    open spec fn index_of(p: Pos, size: Size) -> int {
        p.y * size.width + p.x
    }

    open spec fn pos_of(i: int, size: Size) -> Pos {
        Pos { x: (i % (size.width as int)) as usize, y: (i / (size.width as int)) as usize }
    }

    open spec fn aligned(size: Size, rect: Rect) -> bool {
        rect.height == 1 || rect.width == size.width
    }

    open spec fn supports(size: Size) -> bool {
        true
    }

    fn supports_size(size: Size) -> (r: bool) {
        true
    }

    proof fn lemma_index_of(p: Pos, size: Size) {
        lemma_join(p.y as int, p.x as int, size.width as int, size.height as int);
    }

    proof fn lemma_pos_of(i: int, size: Size) {
        lemma_positive_side(i, size.width as int, size.height as int);
        lemma_split(i, size.width as int, size.height as int);
    }

    fn to_1d(pos: Pos, size: Size) -> (r: usize) {
        proof {
            Self::lemma_index_of(pos, size);
        }
        row_major_index(pos.x, pos.y, size.width)
    }

    fn to_2d(index: usize, size: Size) -> (r: Pos) {
        proof {
            lemma_positive_side(index as int, size.width as int, size.height as int);
        }
        row_major_pos(index, size.width)
    }

    fn rect_to_range(size: Size, rect: Rect) -> (r: Option<(usize, usize)>) {
        proof {
            if rect.height == 1 || rect.width == size.width {
                lemma_row_run(size, rect);
            }
        }
        row_major_range(size, rect)
    }
}

impl Linear for ColumnMajor {
    open spec fn index_of(p: Pos, size: Size) -> int {
        p.x * size.height + p.y
    }

    open spec fn pos_of(i: int, size: Size) -> Pos {
        Pos { x: (i / (size.height as int)) as usize, y: (i % (size.height as int)) as usize }
    }

    open spec fn aligned(size: Size, rect: Rect) -> bool {
        rect.width == 1 || rect.height == size.height
    }

    open spec fn supports(size: Size) -> bool {
        true
    }

    fn supports_size(size: Size) -> (r: bool) {
        true
    }

    proof fn lemma_index_of(p: Pos, size: Size) {
        lemma_join(p.x as int, p.y as int, size.height as int, size.width as int);
        assert(size.height * size.width == size.width * size.height) by (nonlinear_arith);
    }

    proof fn lemma_pos_of(i: int, size: Size) {
        assert(size.height * size.width == size.width * size.height) by (nonlinear_arith);
        lemma_positive_side(i, size.height as int, size.width as int);
        lemma_split(i, size.height as int, size.width as int);
    }

    fn to_1d(pos: Pos, size: Size) -> (r: usize) {
        proof {
            Self::lemma_index_of(pos, size);
        }
        col_major_index(pos.x, pos.y, size.height)
    }

    fn to_2d(index: usize, size: Size) -> (r: Pos) {
        proof {
            lemma_positive_side(index as int, size.height as int, size.width as int);
        }
        col_major_pos(index, size.height)
    }

    fn rect_to_range(size: Size, rect: Rect) -> (r: Option<(usize, usize)>) {
        if rect.width != 1 && rect.height != size.height {
            return None;
        }
        proof {
            lemma_col_run(size, rect);
        }
        let start = rect.left * size.height + rect.top;
        let end = start + rect.width * rect.height;
        Some((start, end))
    }
}

/// A row-major rectangle one row high, or as wide as the grid, is one run
/// that starts at its top-left cell.
proof fn lemma_row_run(size: Size, rect: Rect)
    requires
        size.spec_contains_rect(rect),
        rect.height == 1 || rect.width == size.width,
    ensures
        rect.top * size.width + rect.left + rect.width * rect.height <= size.area(),
        forall|k: int|
            0 <= k < rect.width * rect.height ==> RowMajor::index_of(
                #[trigger] order_at(Traversal::RowMajor, rect, k),
                size,
            ) == rect.top * size.width + rect.left + k,
{
    let w = size.width as int;
    let h = size.height as int;
    let t = rect.top as int;
    let l = rect.left as int;
    let rw = rect.width as int;
    let rh = rect.height as int;
    if rh == 1 {
        assert(t * w + l + rw * rh <= w * h) by (nonlinear_arith)
            requires
                t + 1 <= h,
                l + rw <= w,
                rh == 1,
                t >= 0,
                w >= 0,
        ;
        assert forall|k: int| 0 <= k < rw * rh implies RowMajor::index_of(
            #[trigger] order_at(Traversal::RowMajor, rect, k),
            size,
        ) == t * w + l + k by {
            assert(k < rw) by (nonlinear_arith)
                requires
                    k < rw * rh,
                    rh == 1,
            ;
            lemma_join(0, k, rw, 1);
        }
    } else {
        assert(t * w + l + rw * rh <= w * h) by (nonlinear_arith)
            requires
                t + rh <= h,
                l == 0,
                rw == w,
                w >= 0,
        ;
        assert forall|k: int| 0 <= k < rw * rh implies RowMajor::index_of(
            #[trigger] order_at(Traversal::RowMajor, rect, k),
            size,
        ) == t * w + l + k by {
            lemma_positive_side(k, rw, rh);
            lemma_split(k, rw, rh);
            let q = k / rw;
            let r = k % rw;
            assert((t + q) * w + r == t * w + l + k) by (nonlinear_arith)
                requires
                    k == q * rw + r,
                    rw == w,
                    l == 0,
            ;
        }
    }
}

/// A column-major rectangle one column wide, or as tall as the grid, is one
/// run that starts at its top-left cell.
proof fn lemma_col_run(size: Size, rect: Rect)
    requires
        size.spec_contains_rect(rect),
        rect.width == 1 || rect.height == size.height,
    ensures
        rect.left * size.height + rect.top + rect.width * rect.height <= size.area(),
        forall|k: int|
            0 <= k < rect.width * rect.height ==> ColumnMajor::index_of(
                #[trigger] order_at(Traversal::ColumnMajor, rect, k),
                size,
            ) == rect.left * size.height + rect.top + k,
{
    let w = size.width as int;
    let h = size.height as int;
    let t = rect.top as int;
    let l = rect.left as int;
    let rw = rect.width as int;
    let rh = rect.height as int;
    if rw == 1 {
        assert(l * h + t + rw * rh <= w * h) by (nonlinear_arith)
            requires
                l + 1 <= w,
                t + rh <= h,
                rw == 1,
                l >= 0,
                h >= 0,
        ;
        assert forall|k: int| 0 <= k < rw * rh implies ColumnMajor::index_of(
            #[trigger] order_at(Traversal::ColumnMajor, rect, k),
            size,
        ) == l * h + t + k by {
            assert(k < rh) by (nonlinear_arith)
                requires
                    k < rw * rh,
                    rw == 1,
            ;
            lemma_join(0, k, rh, 1);
        }
    } else {
        assert(l * h + t + rw * rh <= w * h) by (nonlinear_arith)
            requires
                l + rw <= w,
                t == 0,
                rh == h,
                h >= 0,
        ;
        assert forall|k: int| 0 <= k < rw * rh implies ColumnMajor::index_of(
            #[trigger] order_at(Traversal::ColumnMajor, rect, k),
            size,
        ) == l * h + t + k by {
            assert(k < rh * rw) by (nonlinear_arith)
                requires
                    k < rw * rh,
            ;
            lemma_positive_side(k, rh, rw);
            lemma_split(k, rh, rw);
            let q = k / rh;
            let r = k % rh;
            assert((l + q) * h + r == l * h + t + k) by (nonlinear_arith)
                requires
                    k == q * rh + r,
                    rh == h,
                    t == 0,
            ;
        }
    }
}

/// Tiles of `W` by `H` cells: the tiles in row-major order, the cells of each
/// tile in row-major order, `index = tile * (W * H) + cell`. Cells are visited
/// row by row. The grid must be a whole number of tiles wide and high.
pub struct Block<const W: usize, const H: usize>;

/// The buffer index of `(x, y)` in tiles of `w` by `h` cells, `stride` cells wide.
pub open spec fn block_index_of(w: int, h: int, x: int, y: int, stride: int) -> int {
    ((y / h) * (stride / w) + x / w) * (w * h) + (y % h) * w + x % w
}

/// The position at buffer index `i` in tiles of `w` by `h` cells, `stride` cells wide.
pub open spec fn block_pos_of(w: int, h: int, i: int, stride: int) -> (int, int) {
    let tile = i / (w * h);
    let cell = i % (w * h);
    (
        (tile % (stride / w)) * w + cell % w,
        (tile / (stride / w)) * h + cell / w,
    )
}

/// Relies on ixy's `Block::<W, H, RowMajor, RowMajor>::pos_to_index`: the
/// tile's row-major index among tiles `stride / W` to a row, times the tile
/// area, plus the cell's row-major index in its tile.
#[verifier::external_body]
fn block_index<const W: usize, const H: usize>(x: usize, y: usize, stride: usize) -> (r: usize)
    requires
        W > 0,
        H > 0,
        W * H <= usize::MAX,
        block_index_of(W as int, H as int, x as int, y as int, stride as int) <= usize::MAX,
    ensures
        r == block_index_of(W as int, H as int, x as int, y as int, stride as int),
{
    let p = ixy::Pos::new(x, y);
    ixy::layout::Block::<W, H, ixy::layout::RowMajor, ixy::layout::RowMajor>::pos_to_index(p, stride)
}

/// Relies on ixy's `Block::<W, H, RowMajor, RowMajor>::index_to_pos`: the
/// inverse of `pos_to_index` for tiles `stride / W` to a row.
#[verifier::external_body]
fn block_pos<const W: usize, const H: usize>(index: usize, stride: usize) -> (r: Pos)
    requires
        W > 0,
        H > 0,
        W * H <= usize::MAX,
        stride >= W,
        block_pos_of(W as int, H as int, index as int, stride as int).0 <= usize::MAX,
        block_pos_of(W as int, H as int, index as int, stride as int).1 <= usize::MAX,
    ensures
        r.x == block_pos_of(W as int, H as int, index as int, stride as int).0,
        r.y == block_pos_of(W as int, H as int, index as int, stride as int).1,
{
    let p: ixy::Pos<usize> = ixy::layout::Block::<W, H, ixy::layout::RowMajor, ixy::layout::RowMajor>::index_to_pos(
        index,
        stride,
    );
    Pos { x: p.x, y: p.y }
}

impl<const W: usize, const H: usize> Layout for Block<W, H> {
    open spec fn traversal() -> Traversal {
        Traversal::RowMajor
    }

    fn kind() -> (r: Traversal) {
        Traversal::RowMajor
    }
}

/// A grid that is a whole number of `w` by `h` tiles has `tw * th` tiles and
/// `(w * h) * (tw * th)` cells.
proof fn lemma_tiles(w: int, h: int, size: Size)
    requires
        w > 0,
        h > 0,
        (size.width as int) % w == 0,
        (size.height as int) % h == 0,
    ensures
        size.width == ((size.width as int) / w) * w,
        size.height == ((size.height as int) / h) * h,
        (size.width as int) / w >= 0,
        (size.height as int) / h >= 0,
        size.area() == (w * h) * (((size.height as int) / h) * ((size.width as int) / w)),
{
    lemma_fundamental_div_mod(size.width as int, w);
    lemma_fundamental_div_mod(size.height as int, h);
    lemma_div_pos_is_pos(size.width as int, w);
    lemma_div_pos_is_pos(size.height as int, h);
    let tw = (size.width as int) / w;
    let th = (size.height as int) / h;
    assert(size.width == tw * w) by (nonlinear_arith)
        requires
            size.width == w * tw + 0,
    ;
    assert(size.height == th * h) by (nonlinear_arith)
        requires
            size.height == h * th + 0,
    ;
    assert(size.area() == (w * h) * (th * tw)) by (nonlinear_arith)
        requires
            size.width == tw * w,
            size.height == th * h,
            size.area() == size.width * size.height,
    ;
}

/// The position at an index inside a tiled grid lies inside the grid, and
/// its index comes back.
proof fn lemma_block_pos(w: int, h: int, i: int, size: Size)
    requires
        w > 0,
        h > 0,
        (size.width as int) % w == 0,
        (size.height as int) % h == 0,
        0 <= i < size.area(),
    ensures
        0 <= block_pos_of(w, h, i, size.width as int).0 < size.width,
        0 <= block_pos_of(w, h, i, size.width as int).1 < size.height,
        block_index_of(
            w,
            h,
            block_pos_of(w, h, i, size.width as int).0,
            block_pos_of(w, h, i, size.width as int).1,
            size.width as int,
        ) == i,
{
        lemma_tiles(w, h, size);
        let tw = (size.width as int) / w;
        let th = (size.height as int) / h;
        let wh = w * h;
        assert(wh > 0) by (nonlinear_arith)
            requires
                w > 0,
                h > 0,
                wh == w * h,
        ;
        lemma_split(i, wh, th * tw);
        let tile = i / wh;
        let cell = i % wh;
        assert(th * tw == tw * th) by (nonlinear_arith);
        lemma_positive_side(tile, tw, th);
        lemma_split(tile, tw, th);
        assert(cell < w * h);
        assert(h * w == w * h) by (nonlinear_arith);
        lemma_split(cell, w, h);
        let bx = tile % tw;
        let by = tile / tw;
        let cx = cell % w;
        let cy = cell / w;
        lemma_join(bx, cx, w, tw);
        lemma_join(by, cy, h, th);
        let x = bx * w + cx;
        let y = by * h + cy;
        assert(block_pos_of(w, h, i, size.width as int) == (x, y));
        assert(tw * w == size.width && th * h == size.height) by (nonlinear_arith)
            requires
                size.width == tw * w,
                size.height == th * h,
        ;
        assert(i == (by * tw + bx) * wh + cy * w + cx) by (nonlinear_arith)
            requires
                i == tile * wh + cell,
                tile == by * tw + bx,
                cell == cy * w + cx,
        ;
    }

impl<const W: usize, const H: usize> Linear for Block<W, H> {
    open spec fn index_of(p: Pos, size: Size) -> int {
        block_index_of(W as int, H as int, p.x as int, p.y as int, size.width as int)
    }

    open spec fn pos_of(i: int, size: Size) -> Pos {
        Pos {
            x: block_pos_of(W as int, H as int, i, size.width as int).0 as usize,
            y: block_pos_of(W as int, H as int, i, size.width as int).1 as usize,
        }
    }

    open spec fn aligned(size: Size, rect: Rect) -> bool {
        &&& rect.width == W
        &&& rect.height == H
        &&& rect.left % W == 0
        &&& rect.top % H == 0
    }

    open spec fn supports(size: Size) -> bool {
        W > 0 && H > 0 && size.width % W == 0 && size.height % H == 0
    }

    fn supports_size(size: Size) -> (r: bool) {
        W > 0 && H > 0 && size.width % W == 0 && size.height % H == 0
    }

    proof fn lemma_index_of(p: Pos, size: Size) {
        let w = W as int;
        let h = H as int;
        lemma_tiles(w, h, size);
        let tw = (size.width as int) / w;
        let th = (size.height as int) / h;
        lemma_fundamental_div_mod(p.x as int, w);
        lemma_fundamental_div_mod(p.y as int, h);
        lemma_split(p.x as int, w, tw);
        lemma_split(p.y as int, h, th);
        let bx = (p.x as int) / w;
        let cx = (p.x as int) % w;
        let by = (p.y as int) / h;
        let cy = (p.y as int) % h;
        lemma_join(by, bx, tw, th);
        lemma_join(cy, cx, w, h);
        let tile = by * tw + bx;
        let cell = cy * w + cx;
        assert(w * h == h * w) by (nonlinear_arith);
        assert(th * tw == tw * th) by (nonlinear_arith);
        lemma_join(tile, cell, w * h, th * tw);
        assert(Self::index_of(p, size) == tile * (w * h) + cell);
    }

    proof fn lemma_pos_of(i: int, size: Size) {
        lemma_block_pos(W as int, H as int, i, size);
    }

    fn to_1d(pos: Pos, size: Size) -> (r: usize) {
        proof {
            Self::lemma_index_of(pos, size);
            lemma_tiles(W as int, H as int, size);
            let tw = (size.width as int) / (W as int);
            let th = (size.height as int) / (H as int);
            assert(tw >= 1 && th >= 1) by (nonlinear_arith)
                requires
                    pos.x < size.width,
                    pos.y < size.height,
                    size.width == tw * W,
                    size.height == th * H,
                    W > 0,
                    H > 0,
            ;
            assert(W * H <= size.area()) by (nonlinear_arith)
                requires
                    size.area() == (W * H) * (th * tw),
                    tw >= 1,
                    th >= 1,
                    W > 0,
                    H > 0,
            ;
        }
        block_index::<W, H>(pos.x, pos.y, size.width)
    }

    fn to_2d(index: usize, size: Size) -> (r: Pos) {
        proof {
            lemma_block_pos(W as int, H as int, index as int, size);
            lemma_tiles(W as int, H as int, size);
            let tw = (size.width as int) / (W as int);
            let th = (size.height as int) / (H as int);
            assert(tw >= 1 && th >= 1 && W * H <= size.area() && size.width >= W) by (nonlinear_arith)
                requires
                    index < size.area(),
                    size.area() == (W * H) * (th * tw),
                    size.width == tw * W,
                    tw >= 0,
                    th >= 0,
                    W > 0,
                    H > 0,
            ;
        }
        block_pos::<W, H>(index, size.width)
    }

    fn rect_to_range(size: Size, rect: Rect) -> (r: Option<(usize, usize)>) {
        if !(rect.width == W && rect.height == H && rect.left % W == 0 && rect.top % H == 0) {
            return None;
        }
        let corner = Pos::new(rect.left, rect.top);
        proof {
            Self::lemma_index_of(corner, size);
            lemma_tiles(W as int, H as int, size);
        }
        let start = Self::to_1d(corner, size);
        let ghost w = W as int;
        let ghost h = H as int;
        let ghost tw = (size.width as int) / w;
        let ghost th = (size.height as int) / h;
        let ghost tile = ((rect.top as int) / h) * tw + (rect.left as int) / w;
        proof {
            lemma_fundamental_div_mod(rect.left as int, w);
            lemma_fundamental_div_mod(rect.top as int, h);
            lemma_split(rect.left as int, w, tw);
            lemma_split(rect.top as int, h, th);
            lemma_join((rect.top as int) / h, (rect.left as int) / w, tw, th);
            assert(tw * th == th * tw) by (nonlinear_arith);
            assert(start == tile * (w * h)) by (nonlinear_arith)
                requires
                    start == tile * (w * h) + ((rect.top as int) % h) * w + (rect.left as int) % w,
                    (rect.top as int) % h == 0,
                    (rect.left as int) % w == 0,
            ;
            assert(start + w * h <= size.area()) by (nonlinear_arith)
                requires
                    start == tile * (w * h),
                    tile < th * tw,
                    size.area() == (w * h) * (th * tw),
                    w > 0,
                    h > 0,
            ;
            assert forall|k: int| 0 <= k < rect.width * rect.height implies Self::index_of(
                #[trigger] order_at(Traversal::RowMajor, rect, k),
                size,
            ) == start + k by {
                assert(k < h * w) by (nonlinear_arith)
                    requires
                        k < rect.width * rect.height,
                        rect.width == w,
                        rect.height == h,
                ;
                lemma_split(k, w, h);
                let cx = k % w;
                let cy = k / w;
                lemma_join((rect.left as int) / w, cx, w, tw);
                lemma_join((rect.top as int) / h, cy, h, th);
                assert(rect.left + cx == ((rect.left as int) / w) * w + cx);
                assert(rect.top + cy == ((rect.top as int) / h) * h + cy);
                assert(Self::index_of(order_at(Traversal::RowMajor, rect, k), size) == tile * (w
                    * h) + cy * w + cx);
            }
        }
        Some((start, start + W * H))
    }
}

/// An index below `d * n` exists only when `d` is positive.
proof fn lemma_positive_side(i: int, d: int, n: int)
    requires
        0 <= i < d * n,
        d >= 0,
        n >= 0,
    ensures
        d > 0,
{
    assert(d > 0) by (nonlinear_arith)
        requires
            0 <= i < d * n,
            d >= 0,
            n >= 0,
    ;
}

} // verus!
