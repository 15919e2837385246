//! Rectangle transfers between grids: plain and scaled copies, and blends.

use vstd::prelude::*;
use crate::geom::{lemma_rect_area, GridError, Pos, Rect};
use crate::grid::{GridRead, GridWrite};
use crate::layout::{lemma_order, lemma_order_shift, order_at, pos_at, rank, Layout, Traversal};

verus! {

/// The smaller of `a` and `b`.
pub open spec fn min(a: usize, b: usize) -> usize {
    if a <= b { a } else { b }
}

/// The destination cells that a copy from `src_rect` into `dst_rect`
/// visits: offsets below the sizes of both rectangles.
pub open spec fn copy_region(src_rect: Rect, dst_rect: Rect) -> Rect {
    Rect {
        left: dst_rect.left,
        top: dst_rect.top,
        width: min(src_rect.width, dst_rect.width),
        height: min(src_rect.height, dst_rect.height),
    }
}

/// The source position copied into destination position `q`: the same
/// offset from the source rectangle's corner.
pub open spec fn copy_source(src_rect: Rect, dst_rect: Rect, q: Pos) -> Pos {
    Pos {
        x: (src_rect.left + (q.x - dst_rect.left)) as usize,
        y: (src_rect.top + (q.y - dst_rect.top)) as usize,
    }
}

/// The source position scaled onto destination position `q`: each offset
/// multiplied by the source extent, then divided by the destination extent.
pub open spec fn scaled_source(src_rect: Rect, dst_rect: Rect, q: Pos) -> Pos {
    Pos {
        x: (src_rect.left + (q.x - dst_rect.left) * src_rect.width / (dst_rect.width as int)) as usize,
        y: (src_rect.top + (q.y - dst_rect.top) * src_rect.height / (dst_rect.height as int)) as usize,
    }
}

/// Copies the cells of `src_rect` in `src` to the same offsets from the
/// corner of `dst_rect` in `dst`, for offsets below the sizes of both
/// rectangles; an offset whose source or destination lies outside its grid
/// is skipped, and every other destination cell keeps its value.
///
/// Rectangles of one size that lie inside their grids, on grids that share a
/// traversal order, are copied as one run of elements.
pub fn copy_rect<T: Copy, S: GridRead<T> + ?Sized, D: GridWrite<T> + ?Sized>(
    src: &S,
    src_rect: Rect,
    dst: &mut D,
    dst_rect: Rect,
)
    requires
        src.wf(),
        old(dst).wf(),
        src_rect.wf(),
        dst_rect.wf(),
    ensures
        final(dst).wf(),
        final(dst).spec_size() == old(dst).spec_size(),
        forall|q: Pos|
            #![trigger final(dst).cell(q)]
            final(dst).spec_size().spec_contains(q) ==> final(dst).cell(q) == (if copy_region(
                src_rect,
                dst_rect,
            ).spec_contains(q) && src.spec_size().spec_contains(
                copy_source(src_rect, dst_rect, q),
            ) {
                src.cell(copy_source(src_rect, dst_rect, q))
            } else {
                old(dst).cell(q)
            }),
{
    let src_size = src.size();
    let dst_size = dst.size();
    if src_rect.width == dst_rect.width && src_rect.height == dst_rect.height
        && S::Layout::kind() == D::Layout::kind() && src_rect.left <= src_size.width
        && src_rect.width <= src_size.width - src_rect.left && src_rect.top <= src_size.height
        && src_rect.height <= src_size.height - src_rect.top && dst_rect.left <= dst_size.width
        && dst_rect.width <= dst_size.width - dst_rect.left && dst_rect.top <= dst_size.height
        && dst_rect.height <= dst_size.height - dst_rect.top {
        let values = src.iter_rect_unchecked(src_rect);
        dst.fill_rect_iter_unchecked(dst_rect, values);
        proof {
            let t = S::Layout::traversal();
            lemma_order(t, dst_rect);
            assert forall|q: Pos|
                #![trigger dst.cell(q)]
                dst.spec_size().spec_contains(q) && dst_rect.spec_contains(q) implies order_at(
                    t,
                    src_rect,
                    rank(t, dst_rect, q),
                ) == copy_source(src_rect, dst_rect, q) && src.spec_size().spec_contains(
                    copy_source(src_rect, dst_rect, q),
                ) by {
                assert(order_at(t, dst_rect, rank(t, dst_rect, q)) == q);
                lemma_order_shift(t, dst_rect, src_rect, rank(t, dst_rect, q));
            }
        }
        return ;
    }
    let mw = if src_rect.width <= dst_rect.width { src_rect.width } else { dst_rect.width };
    let mh = if src_rect.height <= dst_rect.height { src_rect.height } else { dst_rect.height };
    let region = Rect::from_ltwh(dst_rect.left, dst_rect.top, mw, mh).clip(dst_size);
    proof {
        dst.lemma_wf();
        lemma_rect_area(region, dst_size);
        lemma_order(Traversal::RowMajor, region);
    }
    let n = region.width * region.height;
    let mut k: usize = 0;
    while k < n
        invariant
            src.wf(),
            dst.wf(),
            dst.spec_size() == old(dst).spec_size(),
            src_size == src.spec_size(),
            dst_size == dst.spec_size(),
            src_rect.wf(),
            dst_rect.wf(),
            region == Rect::from_ltwh_spec(dst_rect.left, dst_rect.top, mw, mh).spec_clip(dst_size),
            mw == min(src_rect.width, dst_rect.width),
            mh == min(src_rect.height, dst_rect.height),
            dst_size.spec_contains_rect(region),
            region.wf(),
            n == region.spec_size().area(),
            k <= n,
            forall|q: Pos|
                #![trigger dst.cell(q)]
                dst.spec_size().spec_contains(q) ==> dst.cell(q) == (if region.spec_contains(q)
                    && rank(Traversal::RowMajor, region, q) < k && src.spec_size().spec_contains(
                    copy_source(src_rect, dst_rect, q),
                ) {
                    src.cell(copy_source(src_rect, dst_rect, q))
                } else {
                    old(dst).cell(q)
                }),
        decreases n - k,
    {
        let dp = pos_at(Traversal::RowMajor, region, k);
        proof {
            lemma_order(Traversal::RowMajor, region);
        }
        let sp = Pos::new(
            src_rect.left + (dp.x - dst_rect.left),
            src_rect.top + (dp.y - dst_rect.top),
        );
        assert(sp == copy_source(src_rect, dst_rect, dp));
        if src.contains(sp) {
            let value = src.get_unchecked(sp);
            dst.set_unchecked(dp, value);
        }
        k = k + 1;
    }
}

/// Scaling offset `x` below `d` by `s / d`, multiplying first, stays within `s`.
proof fn lemma_scale(x: int, s: int, d: int)
    requires
        0 <= x < d,
        0 <= s,
    ensures
        0 <= x * s / d <= s,
        s > 0 ==> x * s / d < s,
        s == d ==> x * s / d == x,
{
    vstd::arithmetic::div_mod::lemma_fundamental_div_mod(x * s, d);
    vstd::arithmetic::div_mod::lemma_mod_pos_bound(x * s, d);
    let q = x * s / d;
    let r = (x * s) % d;
    assert(0 <= x * s) by (nonlinear_arith)
        requires
            0 <= x,
            0 <= s,
    ;
    vstd::arithmetic::div_mod::lemma_div_pos_is_pos(x * s, d);
    assert(q <= s && (s > 0 ==> q < s)) by (nonlinear_arith)
        requires
            x * s == d * q + r,
            0 <= r < d,
            0 <= x < d,
            0 <= s,
            0 <= q,
    ;
    if s == d {
        vstd::arithmetic::div_mod::lemma_fundamental_div_mod_converse(x * s, d, x, 0);
    }
}

/// `x * s / d`, computed without overflow.
fn scale(x: usize, s: usize, d: usize) -> (r: usize)
    requires
        x < d,
    ensures
        r == x * s / (d as int),
        r <= s,
        s > 0 ==> r < s,
{
    proof {
        lemma_scale(x as int, s as int, d as int);
        assert((x as int) * (s as int) <= u128::MAX) by (nonlinear_arith)
            requires
                0 <= x <= u64::MAX,
                0 <= s <= u64::MAX,
        ;
    }
    let product = (x as u128) * (s as u128);
    (product / (d as u128)) as usize
}

/// Copies `src_rect` in `src` onto `dst_rect` in `dst`, scaled to its size
/// by nearest neighbour: destination offset `(x, y)` takes the source cell at
/// offset `(x * src width / dst width, y * src height / dst height)`. A cell
/// whose source or destination lies outside its grid is skipped, and every
/// other destination cell keeps its value. Rectangles of one size are copied
/// as `copy_rect` does.
pub fn copy_rect_scaled<T: Copy, S: GridRead<T> + ?Sized, D: GridWrite<T> + ?Sized>(
    src: &S,
    src_rect: Rect,
    dst: &mut D,
    dst_rect: Rect,
)
    requires
        src.wf(),
        old(dst).wf(),
        src_rect.wf(),
        dst_rect.wf(),
    ensures
        final(dst).wf(),
        final(dst).spec_size() == old(dst).spec_size(),
        forall|q: Pos|
            #![trigger final(dst).cell(q)]
            final(dst).spec_size().spec_contains(q) ==> final(dst).cell(q) == (if dst_rect.spec_contains(q)
                && src.spec_size().spec_contains(scaled_source(src_rect, dst_rect, q)) {
                src.cell(scaled_source(src_rect, dst_rect, q))
            } else {
                old(dst).cell(q)
            }),
{
    if src_rect.width == dst_rect.width && src_rect.height == dst_rect.height {
        copy_rect(src, src_rect, dst, dst_rect);
        proof {
            assert forall|q: Pos| dst_rect.spec_contains(q) implies scaled_source(src_rect, dst_rect, q)
                == copy_source(src_rect, dst_rect, q) by {
                lemma_scale(q.x - dst_rect.left, src_rect.width as int, dst_rect.width as int);
                lemma_scale(q.y - dst_rect.top, src_rect.height as int, dst_rect.height as int);
            }
        }
        return ;
    }
    let dst_size = dst.size();
    let region = dst_rect.clip(dst_size);
    proof {
        dst.lemma_wf();
        lemma_rect_area(region, dst_size);
    }
    let n = region.width * region.height;
    let mut k: usize = 0;
    while k < n
        invariant
            src.wf(),
            dst.wf(),
            dst.spec_size() == old(dst).spec_size(),
            dst_size == dst.spec_size(),
            src_rect.wf(),
            dst_rect.wf(),
            region == dst_rect.spec_clip(dst_size),
            dst_size.spec_contains_rect(region),
            region.wf(),
            n == region.spec_size().area(),
            k <= n,
            forall|q: Pos|
                #![trigger dst.cell(q)]
                dst.spec_size().spec_contains(q) ==> dst.cell(q) == (if region.spec_contains(q)
                    && rank(Traversal::RowMajor, region, q) < k && src.spec_size().spec_contains(
                    scaled_source(src_rect, dst_rect, q),
                ) {
                    src.cell(scaled_source(src_rect, dst_rect, q))
                } else {
                    old(dst).cell(q)
                }),
        decreases n - k,
    {
        let dp = pos_at(Traversal::RowMajor, region, k);
        proof {
            lemma_order(Traversal::RowMajor, region);
        }
        let sx = scale(dp.x - dst_rect.left, src_rect.width, dst_rect.width);
        let sy = scale(dp.y - dst_rect.top, src_rect.height, dst_rect.height);
        let sp = Pos::new(src_rect.left + sx, src_rect.top + sy);
        assert(sp == scaled_source(src_rect, dst_rect, dp));
        if src.contains(sp) {
            let value = src.get_unchecked(sp);
            dst.set_unchecked(dp, value);
        }
        k = k + 1;
    }
    proof {
        lemma_order(Traversal::RowMajor, region);
    }
}

/// Blends the cells of `src_rect` in `src` into `dst` at the same offsets
/// from the corner of `dst_rect`, for offsets below the sizes of both
/// rectangles: each such destination cell becomes `blend(source, current)`.
/// An offset whose source or destination lies outside its grid is skipped,
/// and every other destination cell keeps its value.
pub fn blit_rect<
    T: Copy,
    S: GridRead<T> + ?Sized,
    D: GridRead<T> + GridWrite<T> + ?Sized,
    F: Fn(T, T) -> T,
>(
    src: &S,
    src_rect: Rect,
    dst: &mut D,
    dst_rect: Rect,
    blend: &F,
)
    requires
        src.wf(),
        old(dst).wf(),
        src_rect.wf(),
        dst_rect.wf(),
        forall|a: T, b: T| blend.requires((a, b)),
    ensures
        final(dst).wf(),
        final(dst).spec_size() == old(dst).spec_size(),
        forall|q: Pos|
            #![trigger final(dst).cell(q)]
            final(dst).spec_size().spec_contains(q) ==> if copy_region(
                src_rect,
                dst_rect,
            ).spec_contains(q) && src.spec_size().spec_contains(
                copy_source(src_rect, dst_rect, q),
            ) {
                blend.ensures(
                    (src.cell(copy_source(src_rect, dst_rect, q)), old(dst).cell(q)),
                    final(dst).cell(q),
                )
            } else {
                final(dst).cell(q) == old(dst).cell(q)
            },
{
    let dst_size = dst.size();
    let mw = if src_rect.width <= dst_rect.width { src_rect.width } else { dst_rect.width };
    let mh = if src_rect.height <= dst_rect.height { src_rect.height } else { dst_rect.height };
    let region = Rect::from_ltwh(dst_rect.left, dst_rect.top, mw, mh).clip(dst_size);
    proof {
        dst.lemma_wf();
        lemma_rect_area(region, dst_size);
    }
    let n = region.width * region.height;
    let mut k: usize = 0;
    while k < n
        invariant
            src.wf(),
            dst.wf(),
            dst.spec_size() == old(dst).spec_size(),
            dst_size == dst.spec_size(),
            src_rect.wf(),
            dst_rect.wf(),
            forall|a: T, b: T| blend.requires((a, b)),
            region == Rect::from_ltwh_spec(dst_rect.left, dst_rect.top, mw, mh).spec_clip(dst_size),
            mw == min(src_rect.width, dst_rect.width),
            mh == min(src_rect.height, dst_rect.height),
            dst_size.spec_contains_rect(region),
            region.wf(),
            n == region.spec_size().area(),
            k <= n,
            forall|q: Pos|
                #![trigger dst.cell(q)]
                dst.spec_size().spec_contains(q) ==> if region.spec_contains(q) && rank(
                    Traversal::RowMajor,
                    region,
                    q,
                ) < k && src.spec_size().spec_contains(copy_source(src_rect, dst_rect, q)) {
                    blend.ensures(
                        (src.cell(copy_source(src_rect, dst_rect, q)), old(dst).cell(q)),
                        dst.cell(q),
                    )
                } else {
                    dst.cell(q) == old(dst).cell(q)
                },
        decreases n - k,
    {
        let dp = pos_at(Traversal::RowMajor, region, k);
        proof {
            lemma_order(Traversal::RowMajor, region);
        }
        let sp = Pos::new(
            src_rect.left + (dp.x - dst_rect.left),
            src_rect.top + (dp.y - dst_rect.top),
        );
        assert(sp == copy_source(src_rect, dst_rect, dp));
        if src.contains(sp) {
            let value = blend(src.get_unchecked(sp), dst.get_unchecked(dp));
            dst.set_unchecked(dp, value);
        }
        k = k + 1;
    }
    proof {
        lemma_order(Traversal::RowMajor, region);
    }
}

/// Blends `src_rect` in `src` onto `dst_rect` in `dst`, scaled to its size
/// as `copy_rect_scaled` scales: each destination cell inside `dst_rect`
/// becomes `blend(source, current)`. A cell whose source or destination lies
/// outside its grid is skipped, and every other destination cell keeps its
/// value.
pub fn blit_rect_scaled<
    T: Copy,
    S: GridRead<T> + ?Sized,
    D: GridRead<T> + GridWrite<T> + ?Sized,
    F: Fn(T, T) -> T,
>(
    src: &S,
    src_rect: Rect,
    dst: &mut D,
    dst_rect: Rect,
    blend: &F,
)
    requires
        src.wf(),
        old(dst).wf(),
        src_rect.wf(),
        dst_rect.wf(),
        forall|a: T, b: T| blend.requires((a, b)),
    ensures
        final(dst).wf(),
        final(dst).spec_size() == old(dst).spec_size(),
        forall|q: Pos|
            #![trigger final(dst).cell(q)]
            final(dst).spec_size().spec_contains(q) ==> if dst_rect.spec_contains(q)
                && src.spec_size().spec_contains(scaled_source(src_rect, dst_rect, q)) {
                blend.ensures(
                    (src.cell(scaled_source(src_rect, dst_rect, q)), old(dst).cell(q)),
                    final(dst).cell(q),
                )
            } else {
                final(dst).cell(q) == old(dst).cell(q)
            },
{
    let dst_size = dst.size();
    let region = dst_rect.clip(dst_size);
    proof {
        dst.lemma_wf();
        lemma_rect_area(region, dst_size);
    }
    let n = region.width * region.height;
    let mut k: usize = 0;
    while k < n
        invariant
            src.wf(),
            dst.wf(),
            dst.spec_size() == old(dst).spec_size(),
            dst_size == dst.spec_size(),
            src_rect.wf(),
            dst_rect.wf(),
            forall|a: T, b: T| blend.requires((a, b)),
            region == dst_rect.spec_clip(dst_size),
            dst_size.spec_contains_rect(region),
            region.wf(),
            n == region.spec_size().area(),
            k <= n,
            forall|q: Pos|
                #![trigger dst.cell(q)]
                dst.spec_size().spec_contains(q) ==> if region.spec_contains(q) && rank(
                    Traversal::RowMajor,
                    region,
                    q,
                ) < k && src.spec_size().spec_contains(scaled_source(src_rect, dst_rect, q)) {
                    blend.ensures(
                        (src.cell(scaled_source(src_rect, dst_rect, q)), old(dst).cell(q)),
                        dst.cell(q),
                    )
                } else {
                    dst.cell(q) == old(dst).cell(q)
                },
        decreases n - k,
    {
        let dp = pos_at(Traversal::RowMajor, region, k);
        proof {
            lemma_order(Traversal::RowMajor, region);
        }
        let sx = scale(dp.x - dst_rect.left, src_rect.width, dst_rect.width);
        let sy = scale(dp.y - dst_rect.top, src_rect.height, dst_rect.height);
        let sp = Pos::new(src_rect.left + sx, src_rect.top + sy);
        assert(sp == scaled_source(src_rect, dst_rect, dp));
        if src.contains(sp) {
            let value = blend(src.get_unchecked(sp), dst.get_unchecked(dp));
            dst.set_unchecked(dp, value);
        }
        k = k + 1;
    }
    proof {
        lemma_order(Traversal::RowMajor, region);
    }
}

/// Copies as `copy_rect` does, where the caller guarantees that `src_rect`
/// lies inside `src` and that the cells written (the corner of `dst_rect`
/// and the smaller of the two sizes) lie inside `dst`: no position is checked
/// against the grids' bounds.
pub fn copy_rect_unchecked<T: Copy, S: GridRead<T> + ?Sized, D: GridWrite<T> + ?Sized>(
    src: &S,
    src_rect: Rect,
    dst: &mut D,
    dst_rect: Rect,
)
    requires
        src.wf(),
        old(dst).wf(),
        src.spec_size().spec_contains_rect(src_rect),
        old(dst).spec_size().spec_contains_rect(copy_region(src_rect, dst_rect)),
    ensures
        final(dst).wf(),
        final(dst).spec_size() == old(dst).spec_size(),
        forall|q: Pos|
            #![trigger final(dst).cell(q)]
            final(dst).spec_size().spec_contains(q) ==> final(dst).cell(q) == (if copy_region(
                src_rect,
                dst_rect,
            ).spec_contains(q) {
                src.cell(copy_source(src_rect, dst_rect, q))
            } else {
                old(dst).cell(q)
            }),
{
    let src_size = src.size();
    let dst_size = dst.size();
    if src_rect.width == dst_rect.width && src_rect.height == dst_rect.height
        && S::Layout::kind() == D::Layout::kind() {
        let values = src.iter_rect_unchecked(src_rect);
        dst.fill_rect_iter_unchecked(dst_rect, values);
        proof {
            let t = S::Layout::traversal();
            lemma_order(t, dst_rect);
            assert forall|q: Pos|
                #![trigger dst.cell(q)]
                dst.spec_size().spec_contains(q) && dst_rect.spec_contains(q) implies order_at(
                    t,
                    src_rect,
                    rank(t, dst_rect, q),
                ) == copy_source(src_rect, dst_rect, q) && src.spec_size().spec_contains(
                    copy_source(src_rect, dst_rect, q),
                ) by {
                assert(order_at(t, dst_rect, rank(t, dst_rect, q)) == q);
                lemma_order_shift(t, dst_rect, src_rect, rank(t, dst_rect, q));
            }
        }
        return ;
    }
    let mw = if src_rect.width <= dst_rect.width { src_rect.width } else { dst_rect.width };
    let mh = if src_rect.height <= dst_rect.height { src_rect.height } else { dst_rect.height };
    let region = Rect::from_ltwh(dst_rect.left, dst_rect.top, mw, mh).clip(dst_size);
    proof {
        lemma_rect_area(src_rect, src_size);
        dst.lemma_wf();
        lemma_rect_area(region, dst_size);
        lemma_order(Traversal::RowMajor, region);
    }
    let n = region.width * region.height;
    let mut k: usize = 0;
    while k < n
        invariant
            src.wf(),
            dst.wf(),
            dst.spec_size() == old(dst).spec_size(),
            src_size == src.spec_size(),
            dst_size == dst.spec_size(),
            src_rect.wf(),
            src.spec_size().spec_contains_rect(src_rect),
            dst.spec_size().spec_contains_rect(copy_region(src_rect, dst_rect)),
            region == Rect::from_ltwh_spec(dst_rect.left, dst_rect.top, mw, mh).spec_clip(dst_size),
            mw == min(src_rect.width, dst_rect.width),
            mh == min(src_rect.height, dst_rect.height),
            dst_size.spec_contains_rect(region),
            region.wf(),
            n == region.spec_size().area(),
            k <= n,
            forall|q: Pos|
                #![trigger dst.cell(q)]
                dst.spec_size().spec_contains(q) ==> dst.cell(q) == (if region.spec_contains(q)
                    && rank(Traversal::RowMajor, region, q) < k {
                    src.cell(copy_source(src_rect, dst_rect, q))
                } else {
                    old(dst).cell(q)
                }),
        decreases n - k,
    {
        let dp = pos_at(Traversal::RowMajor, region, k);
        proof {
            lemma_order(Traversal::RowMajor, region);
        }
        let sp = Pos::new(
            src_rect.left + (dp.x - dst_rect.left),
            src_rect.top + (dp.y - dst_rect.top),
        );
        assert(sp == copy_source(src_rect, dst_rect, dp));
        let value = src.get_unchecked(sp);
        dst.set_unchecked(dp, value);
        k = k + 1;
    }
}

/// Blends as `blit_rect` does, where the caller guarantees that `src_rect`
/// lies inside `src` and that the cells written (the corner of `dst_rect`
/// and the smaller of the two sizes) lie inside `dst`: no position is checked
/// against the grids' bounds.
pub fn blit_rect_unchecked<
    T: Copy,
    S: GridRead<T> + ?Sized,
    D: GridRead<T> + GridWrite<T> + ?Sized,
    F: Fn(T, T) -> T,
>(
    src: &S,
    src_rect: Rect,
    dst: &mut D,
    dst_rect: Rect,
    blend: &F,
)
    requires
        src.wf(),
        old(dst).wf(),
        src.spec_size().spec_contains_rect(src_rect),
        old(dst).spec_size().spec_contains_rect(copy_region(src_rect, dst_rect)),
        forall|a: T, b: T| blend.requires((a, b)),
    ensures
        final(dst).wf(),
        final(dst).spec_size() == old(dst).spec_size(),
        forall|q: Pos|
            #![trigger final(dst).cell(q)]
            final(dst).spec_size().spec_contains(q) ==> if copy_region(
                src_rect,
                dst_rect,
            ).spec_contains(q) {
                blend.ensures(
                    (src.cell(copy_source(src_rect, dst_rect, q)), old(dst).cell(q)),
                    final(dst).cell(q),
                )
            } else {
                final(dst).cell(q) == old(dst).cell(q)
            },
{
    let dst_size = dst.size();
    let mw = if src_rect.width <= dst_rect.width { src_rect.width } else { dst_rect.width };
    let mh = if src_rect.height <= dst_rect.height { src_rect.height } else { dst_rect.height };
    let region = Rect::from_ltwh(dst_rect.left, dst_rect.top, mw, mh).clip(dst_size);
    proof {
        lemma_rect_area(src_rect, src.spec_size());
        dst.lemma_wf();
        lemma_rect_area(region, dst_size);
    }
    let n = region.width * region.height;
    let mut k: usize = 0;
    while k < n
        invariant
            src.wf(),
            dst.wf(),
            dst.spec_size() == old(dst).spec_size(),
            dst_size == dst.spec_size(),
            src_rect.wf(),
            src.spec_size().spec_contains_rect(src_rect),
            dst.spec_size().spec_contains_rect(copy_region(src_rect, dst_rect)),
            forall|a: T, b: T| blend.requires((a, b)),
            region == Rect::from_ltwh_spec(dst_rect.left, dst_rect.top, mw, mh).spec_clip(dst_size),
            mw == min(src_rect.width, dst_rect.width),
            mh == min(src_rect.height, dst_rect.height),
            dst_size.spec_contains_rect(region),
            region.wf(),
            n == region.spec_size().area(),
            k <= n,
            forall|q: Pos|
                #![trigger dst.cell(q)]
                dst.spec_size().spec_contains(q) ==> if region.spec_contains(q) && rank(
                    Traversal::RowMajor,
                    region,
                    q,
                ) < k {
                    blend.ensures(
                        (src.cell(copy_source(src_rect, dst_rect, q)), old(dst).cell(q)),
                        dst.cell(q),
                    )
                } else {
                    dst.cell(q) == old(dst).cell(q)
                },
        decreases n - k,
    {
        let dp = pos_at(Traversal::RowMajor, region, k);
        proof {
            lemma_order(Traversal::RowMajor, region);
        }
        let sp = Pos::new(
            src_rect.left + (dp.x - dst_rect.left),
            src_rect.top + (dp.y - dst_rect.top),
        );
        assert(sp == copy_source(src_rect, dst_rect, dp));
        let value = blend(src.get_unchecked(sp), dst.get_unchecked(dp));
        dst.set_unchecked(dp, value);
        k = k + 1;
    }
    proof {
        lemma_order(Traversal::RowMajor, region);
    }
}

/// Copies as `copy_rect_scaled` does, for rectangles that the caller
/// guarantees lie inside their grids, the source one non-empty when the
/// destination one is: no position is checked against the grids' bounds.
pub fn copy_rect_scaled_unchecked<T: Copy, S: GridRead<T> + ?Sized, D: GridWrite<T> + ?Sized>(
    src: &S,
    src_rect: Rect,
    dst: &mut D,
    dst_rect: Rect,
)
    requires
        src.wf(),
        old(dst).wf(),
        src.spec_size().spec_contains_rect(src_rect),
        old(dst).spec_size().spec_contains_rect(dst_rect),
        dst_rect.width > 0 && dst_rect.height > 0 ==> src_rect.width > 0 && src_rect.height > 0,
    ensures
        final(dst).wf(),
        final(dst).spec_size() == old(dst).spec_size(),
        forall|q: Pos|
            #![trigger final(dst).cell(q)]
            final(dst).spec_size().spec_contains(q) ==> final(dst).cell(q) == (if dst_rect.spec_contains(q) {
                src.cell(scaled_source(src_rect, dst_rect, q))
            } else {
                old(dst).cell(q)
            }),
{
    if src_rect.width == dst_rect.width && src_rect.height == dst_rect.height {
        copy_rect_unchecked(src, src_rect, dst, dst_rect);
        proof {
            assert forall|q: Pos| dst_rect.spec_contains(q) implies scaled_source(src_rect, dst_rect, q)
                == copy_source(src_rect, dst_rect, q) by {
                lemma_scale(q.x - dst_rect.left, src_rect.width as int, dst_rect.width as int);
                lemma_scale(q.y - dst_rect.top, src_rect.height as int, dst_rect.height as int);
            }
        }
        return ;
    }
    let dst_size = dst.size();
    let region = dst_rect.clip(dst_size);
    proof {
        lemma_rect_area(src_rect, src.spec_size());
        lemma_rect_area(dst_rect, dst_size);
        dst.lemma_wf();
        lemma_rect_area(region, dst_size);
    }
    let n = region.width * region.height;
    let mut k: usize = 0;
    while k < n
        invariant
            src.wf(),
            dst.wf(),
            dst.spec_size() == old(dst).spec_size(),
            dst_size == dst.spec_size(),
            src_rect.wf(),
            dst_rect.wf(),
            src.spec_size().spec_contains_rect(src_rect),
            dst.spec_size().spec_contains_rect(dst_rect),
            dst_rect.width > 0 && dst_rect.height > 0 ==> src_rect.width > 0 && src_rect.height > 0,
            region == dst_rect.spec_clip(dst_size),
            dst_size.spec_contains_rect(region),
            region.wf(),
            n == region.spec_size().area(),
            k <= n,
            forall|q: Pos|
                #![trigger dst.cell(q)]
                dst.spec_size().spec_contains(q) ==> dst.cell(q) == (if region.spec_contains(q)
                    && rank(Traversal::RowMajor, region, q) < k {
                    src.cell(scaled_source(src_rect, dst_rect, q))
                } else {
                    old(dst).cell(q)
                }),
        decreases n - k,
    {
        let dp = pos_at(Traversal::RowMajor, region, k);
        proof {
            lemma_order(Traversal::RowMajor, region);
        }
        let sx = scale(dp.x - dst_rect.left, src_rect.width, dst_rect.width);
        let sy = scale(dp.y - dst_rect.top, src_rect.height, dst_rect.height);
        let sp = Pos::new(src_rect.left + sx, src_rect.top + sy);
        assert(sp == scaled_source(src_rect, dst_rect, dp));
        let value = src.get_unchecked(sp);
        dst.set_unchecked(dp, value);
        k = k + 1;
    }
    proof {
        lemma_order(Traversal::RowMajor, region);
    }
}

/// Blends as `blit_rect_scaled` does, for rectangles that the caller
/// guarantees lie inside their grids, the source one non-empty when the
/// destination one is: no position is checked against the grids' bounds.
pub fn blit_rect_scaled_unchecked<
    T: Copy,
    S: GridRead<T> + ?Sized,
    D: GridRead<T> + GridWrite<T> + ?Sized,
    F: Fn(T, T) -> T,
>(
    src: &S,
    src_rect: Rect,
    dst: &mut D,
    dst_rect: Rect,
    blend: &F,
)
    requires
        src.wf(),
        old(dst).wf(),
        src.spec_size().spec_contains_rect(src_rect),
        old(dst).spec_size().spec_contains_rect(dst_rect),
        dst_rect.width > 0 && dst_rect.height > 0 ==> src_rect.width > 0 && src_rect.height > 0,
        forall|a: T, b: T| blend.requires((a, b)),
    ensures
        final(dst).wf(),
        final(dst).spec_size() == old(dst).spec_size(),
        forall|q: Pos|
            #![trigger final(dst).cell(q)]
            final(dst).spec_size().spec_contains(q) ==> if dst_rect.spec_contains(q) {
                blend.ensures(
                    (src.cell(scaled_source(src_rect, dst_rect, q)), old(dst).cell(q)),
                    final(dst).cell(q),
                )
            } else {
                final(dst).cell(q) == old(dst).cell(q)
            },
{
    let dst_size = dst.size();
    let region = dst_rect.clip(dst_size);
    proof {
        lemma_rect_area(src_rect, src.spec_size());
        lemma_rect_area(dst_rect, dst_size);
        dst.lemma_wf();
        lemma_rect_area(region, dst_size);
    }
    let n = region.width * region.height;
    let mut k: usize = 0;
    while k < n
        invariant
            src.wf(),
            dst.wf(),
            dst.spec_size() == old(dst).spec_size(),
            dst_size == dst.spec_size(),
            src_rect.wf(),
            dst_rect.wf(),
            src.spec_size().spec_contains_rect(src_rect),
            dst.spec_size().spec_contains_rect(dst_rect),
            dst_rect.width > 0 && dst_rect.height > 0 ==> src_rect.width > 0 && src_rect.height > 0,
            forall|a: T, b: T| blend.requires((a, b)),
            region == dst_rect.spec_clip(dst_size),
            dst_size.spec_contains_rect(region),
            region.wf(),
            n == region.spec_size().area(),
            k <= n,
            forall|q: Pos|
                #![trigger dst.cell(q)]
                dst.spec_size().spec_contains(q) ==> if region.spec_contains(q) && rank(
                    Traversal::RowMajor,
                    region,
                    q,
                ) < k {
                    blend.ensures(
                        (src.cell(scaled_source(src_rect, dst_rect, q)), old(dst).cell(q)),
                        dst.cell(q),
                    )
                } else {
                    dst.cell(q) == old(dst).cell(q)
                },
        decreases n - k,
    {
        let dp = pos_at(Traversal::RowMajor, region, k);
        proof {
            lemma_order(Traversal::RowMajor, region);
        }
        let sx = scale(dp.x - dst_rect.left, src_rect.width, dst_rect.width);
        let sy = scale(dp.y - dst_rect.top, src_rect.height, dst_rect.height);
        let sp = Pos::new(src_rect.left + sx, src_rect.top + sy);
        assert(sp == scaled_source(src_rect, dst_rect, dp));
        let value = blend(src.get_unchecked(sp), dst.get_unchecked(dp));
        dst.set_unchecked(dp, value);
        k = k + 1;
    }
    proof {
        lemma_order(Traversal::RowMajor, region);
    }
}

/// Blending writes, which every grid that can be read and written receives.
pub trait GridBlend<T: Copy>: GridRead<T> + GridWrite<T> {
    /// Replaces the element at `dst` with `blend(current, value)`, or fails
    /// when `dst` lies outside the grid.
    fn blend_set<F: Fn(T, T) -> T>(&mut self, dst: Pos, value: T, blend: &F) -> (r: Result<(), GridError>)
        requires
            old(self).wf(),
            forall|a: T, b: T| blend.requires((a, b)),
        ensures
            final(self).wf(),
            final(self).spec_size() == old(self).spec_size(),
            r == (if old(self).spec_size().spec_contains(dst) {
                Ok(())
            } else {
                Err(GridError::OutOfBounds { pos: dst })
            }),
            forall|q: Pos|
                #![trigger final(self).cell(q)]
                final(self).spec_size().spec_contains(q) ==> if q == dst {
                    blend.ensures((old(self).cell(q), value), final(self).cell(q))
                } else {
                    final(self).cell(q) == old(self).cell(q)
                },
    {
        match self.get(dst) {
            Some(current) => {
                let blended = blend(current, value);
                self.set(dst, blended)
            },
            None => Err(GridError::OutOfBounds { pos: dst }),
        }
    }

    /// Blends the cells of `rect` in `src` into this grid, the rectangle's
    /// top-left corner landing on `dst`: each such cell becomes
    /// `blend(current, source)`. Cells whose source or destination lies
    /// outside its grid are skipped, and every other cell keeps its value.
    fn blend_rect<S: GridRead<T>, F: Fn(T, T) -> T>(&mut self, dst: Pos, src: &S, rect: Rect, blend: &F)
        requires
            old(self).wf(),
            src.wf(),
            rect.wf(),
            Rect::new_spec(dst, rect.spec_size()).wf(),
            forall|a: T, b: T| blend.requires((a, b)),
        ensures
            final(self).wf(),
            final(self).spec_size() == old(self).spec_size(),
            forall|q: Pos|
                #![trigger final(self).cell(q)]
                final(self).spec_size().spec_contains(q) ==> if Rect::new_spec(
                    dst,
                    rect.spec_size(),
                ).spec_contains(q) && src.spec_size().spec_contains(
                    copy_source(rect, Rect::new_spec(dst, rect.spec_size()), q),
                ) {
                    blend.ensures(
                        (old(self).cell(q), src.cell(copy_source(rect, Rect::new_spec(dst, rect.spec_size()), q))),
                        final(self).cell(q),
                    )
                } else {
                    final(self).cell(q) == old(self).cell(q)
                },
    {
        let target = Rect::new(dst, rect.size());
        let swapped = |s: T, d: T| -> (r: T)
            requires
                blend.requires((d, s)),
            ensures
                blend.ensures((d, s), r),
            { blend(d, s) };
        blit_rect(src, rect, self, target, &swapped);
    }
}

impl<T: Copy, G: GridRead<T> + GridWrite<T>> GridBlend<T> for G {

}

} // verus!
