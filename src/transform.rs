//! Views that present an existing grid in another form.

use std::marker::PhantomData;
use vstd::prelude::*;
use crate::geom::{GridError, Pos, Rect, Size};
use crate::buf::GridBuf;
use crate::grid::{GridBase, GridRead, GridReadUnchecked, GridWrite, TrustedSizeGrid};
use crate::layout::Linear;
use crate::ops::GridBlend;
use crate::layout::lemma_split;

verus! {

/// A view of a grid magnified `scale` times by nearest neighbour: cell
/// `(x, y)` shows the source cell `(x / scale, y / scale)`.
pub struct Scaled<G> {
    source: G,
    scale: usize,
}

/// Whether a grid of `size` magnified `scale` times still has a cell count
/// that fits in a `usize`.
pub open spec fn scale_fits(size: Size, scale: usize) -> bool {
    &&& scale > 0
    &&& size.width * scale <= usize::MAX
    &&& size.height * scale <= usize::MAX
    &&& (size.width * scale) * (size.height * scale) <= usize::MAX
}

impl<G: TrustedSizeGrid> Scaled<G> {
    /// The viewed grid.
    pub closed spec fn spec_source(&self) -> G {
        self.source
    }

    /// The magnification.
    pub closed spec fn spec_scale(&self) -> usize {
        self.scale
    }

    /// `source` magnified `scale` times.
    pub fn new(source: G, scale: usize) -> (r: Self)
        requires
            source.wf(),
            scale_fits(source.spec_size(), scale),
        ensures
            r.wf(),
            r.spec_source() == source,
            r.spec_scale() == scale,
    {
        Scaled { source, scale }
    }

    /// Consumes the view, handing back the viewed grid.
    pub fn into_inner(self) -> (r: G)
        ensures
            r == self.spec_source(),
    {
        self.source
    }
}

impl<G: TrustedSizeGrid> TrustedSizeGrid for Scaled<G> {
    open spec fn wf(&self) -> bool {
        self.spec_source().wf() && scale_fits(self.spec_source().spec_size(), self.spec_scale())
    }

    open spec fn spec_size(&self) -> Size {
        Size {
            width: (self.spec_source().spec_size().width * self.spec_scale()) as usize,
            height: (self.spec_source().spec_size().height * self.spec_scale()) as usize,
        }
    }

    proof fn lemma_wf(&self) {
    }

    fn width(&self) -> (r: usize) {
        self.source.width() * self.scale
    }

    fn height(&self) -> (r: usize) {
        self.source.height() * self.scale
    }
}

impl<T: Copy, G: GridBase<T>> GridBase<T> for Scaled<G> {
    type Layout = G::Layout;

    open spec fn cell(&self, p: Pos) -> T {
        self.spec_source().cell(
            Pos {
                x: (p.x / self.spec_scale()) as usize,
                y: (p.y / self.spec_scale()) as usize,
            },
        )
    }
}

impl<T: Copy, G: GridReadUnchecked<T>> GridReadUnchecked<T> for Scaled<G> {
    fn get_unchecked(&self, pos: Pos) -> (r: T) {
        let scale = self.scale;
        proof {
            let size = self.source.spec_size();
            assert(scale * size.width == size.width * scale) by (nonlinear_arith);
            assert(scale * size.height == size.height * scale) by (nonlinear_arith);
            lemma_split(pos.x as int, scale as int, size.width as int);
            lemma_split(pos.y as int, scale as int, size.height as int);
        }
        self.source.get_unchecked(Pos::new(pos.x / scale, pos.y / scale))
    }
}

/// A window onto the part of a grid inside a rectangle: cell `(x, y)` of the
/// view is cell `(left + x, top + y)` of the grid.
pub struct Viewed<G> {
    source: G,
    bounds: Rect,
}

impl<G: TrustedSizeGrid> Viewed<G> {
    /// The viewed grid.
    pub closed spec fn spec_source(&self) -> G {
        self.source
    }

    /// The window, inside the viewed grid.
    pub closed spec fn spec_bounds(&self) -> Rect {
        self.bounds
    }

    /// The part of `source` inside `bounds`.
    pub fn new(source: G, bounds: Rect) -> (r: Self)
        requires
            source.wf(),
        ensures
            r.wf(),
            r.spec_source() == source,
            r.spec_bounds() == bounds.spec_clip(source.spec_size()),
    {
        let clipped = bounds.clip(source.size());
        Viewed { source, bounds: clipped }
    }

    /// Consumes the view, handing back the viewed grid.
    pub fn into_inner(self) -> (r: G)
        ensures
            r == self.spec_source(),
    {
        self.source
    }
}

impl<G: TrustedSizeGrid> TrustedSizeGrid for Viewed<G> {
    open spec fn wf(&self) -> bool {
        self.spec_source().wf() && self.spec_source().spec_size().spec_contains_rect(
            self.spec_bounds(),
        )
    }

    open spec fn spec_size(&self) -> Size {
        self.spec_bounds().spec_size()
    }

    proof fn lemma_wf(&self) {
        self.spec_source().lemma_wf();
        crate::geom::lemma_rect_area(self.spec_bounds(), self.spec_source().spec_size());
    }

    fn width(&self) -> (r: usize) {
        self.bounds.width
    }

    fn height(&self) -> (r: usize) {
        self.bounds.height
    }
}

impl<T: Copy, G: GridBase<T>> GridBase<T> for Viewed<G> {
    type Layout = G::Layout;

    open spec fn cell(&self, p: Pos) -> T {
        self.spec_source().cell(
            Pos {
                x: (self.spec_bounds().left + p.x) as usize,
                y: (self.spec_bounds().top + p.y) as usize,
            },
        )
    }
}

impl<T: Copy, G: GridReadUnchecked<T>> GridReadUnchecked<T> for Viewed<G> {
    fn get_unchecked(&self, pos: Pos) -> (r: T) {
        self.source.get_unchecked(Pos::new(self.bounds.left + pos.x, self.bounds.top + pos.y))
    }
}

/// A view of a grid whose elements pass through `f`.
pub struct Mapped<T, G, F> {
    source: G,
    f: F,
    element: PhantomData<T>,
}

/// Whether `f` accepts every element and gives one result for each.
pub open spec fn is_function<T, U, F: Fn(T) -> U>(f: F) -> bool {
    &&& forall|a: T| f.requires((a,))
    &&& forall|a: T, u: U, v: U| f.ensures((a,), u) && f.ensures((a,), v) ==> u == v
}

impl<T: Copy, U: Copy, G: GridBase<T>, F: Fn(T) -> U> Mapped<T, G, F> {
    /// The viewed grid.
    pub closed spec fn spec_source(&self) -> G {
        self.source
    }

    /// The function applied to each element.
    pub closed spec fn spec_f(&self) -> F {
        self.f
    }

    /// `source` with `f` applied to each element.
    pub fn new(source: G, f: F) -> (r: Self)
        requires
            source.wf(),
            is_function(f),
        ensures
            r.wf(),
            r.spec_source() == source,
            r.spec_f() == f,
    {
        Mapped { source, f, element: PhantomData }
    }

    /// Consumes the view, handing back the viewed grid.
    pub fn into_inner(self) -> (r: G)
        ensures
            r == self.spec_source(),
    {
        self.source
    }
}

impl<T: Copy, U: Copy, G: GridBase<T>, F: Fn(T) -> U> TrustedSizeGrid for Mapped<T, G, F> {
    open spec fn wf(&self) -> bool {
        self.spec_source().wf() && is_function(self.spec_f())
    }

    open spec fn spec_size(&self) -> Size {
        self.spec_source().spec_size()
    }

    proof fn lemma_wf(&self) {
        self.spec_source().lemma_wf();
    }

    fn width(&self) -> (r: usize) {
        self.source.width()
    }

    fn height(&self) -> (r: usize) {
        self.source.height()
    }
}

impl<T: Copy, U: Copy, G: GridBase<T>, F: Fn(T) -> U> GridBase<U> for Mapped<T, G, F> {
    type Layout = G::Layout;

    open spec fn cell(&self, p: Pos) -> U {
        choose|u: U| self.spec_f().ensures((self.spec_source().cell(p),), u)
    }
}

impl<T: Copy, U: Copy, G: GridReadUnchecked<T>, F: Fn(T) -> U> GridReadUnchecked<U> for Mapped<
    T,
    G,
    F,
> {
    fn get_unchecked(&self, pos: Pos) -> (r: U) {
        let value = self.source.get_unchecked(pos);
        let r = (self.f)(value);
        proof {
            let u = choose|u: U| self.f.ensures((value,), u);
            assert(self.f.ensures((value,), u));
        }
        r
    }
}

/// A grid whose writes blend: `set(p, v)` stores `blend(current, v)`.
/// Reads see the grid as it is.
pub struct Blended<G, F> {
    source: G,
    blend: F,
}

impl<G: TrustedSizeGrid, F> Blended<G, F> {
    /// The wrapped grid.
    pub closed spec fn spec_source(&self) -> G {
        self.source
    }

    /// The blend function.
    pub closed spec fn spec_blend(&self) -> F {
        self.blend
    }

    /// `source`, written through `blend`.
    pub fn new(source: G, blend: F) -> (r: Self)
        requires
            source.wf(),
        ensures
            r.wf(),
            r.spec_source() == source,
            r.spec_blend() == blend,
    {
        Blended { source, blend }
    }

    /// Consumes the adapter, handing back the wrapped grid.
    pub fn into_inner(self) -> (r: G)
        ensures
            r == self.spec_source(),
    {
        self.source
    }

    /// Replaces the element at `pos` with `blend(current, value)`, or fails
    /// when `pos` lies outside the grid.
    pub fn set<T: Copy>(&mut self, pos: Pos, value: T) -> (r: Result<(), GridError>)
        where
            G: GridRead<T> + GridWrite<T>,
            F: Fn(T, T) -> T,
        requires
            old(self).wf(),
            forall|a: T, b: T| old(self).spec_blend().requires((a, b)),
        ensures
            final(self).wf(),
            final(self).spec_blend() == old(self).spec_blend(),
            final(self).spec_size() == old(self).spec_size(),
            r == (if old(self).spec_size().spec_contains(pos) {
                Ok(())
            } else {
                Err(GridError::OutOfBounds { pos })
            }),
            forall|q: Pos|
                #![trigger final(self).spec_source().cell(q)]
                final(self).spec_size().spec_contains(q) ==> if q == pos {
                    old(self).spec_blend().ensures(
                        (old(self).spec_source().cell(q), value),
                        final(self).spec_source().cell(q),
                    )
                } else {
                    final(self).spec_source().cell(q) == old(self).spec_source().cell(q)
                },
    {
        self.source.blend_set(pos, value, &self.blend)
    }
}

impl<G: TrustedSizeGrid, F> TrustedSizeGrid for Blended<G, F> {
    open spec fn wf(&self) -> bool {
        self.spec_source().wf()
    }

    open spec fn spec_size(&self) -> Size {
        self.spec_source().spec_size()
    }

    proof fn lemma_wf(&self) {
        self.spec_source().lemma_wf();
    }

    fn width(&self) -> (r: usize) {
        self.source.width()
    }

    fn height(&self) -> (r: usize) {
        self.source.height()
    }
}

impl<T: Copy, G: GridBase<T>, F> GridBase<T> for Blended<G, F> {
    type Layout = G::Layout;

    open spec fn cell(&self, p: Pos) -> T {
        self.spec_source().cell(p)
    }
}

impl<T: Copy, G: GridReadUnchecked<T>, F> GridReadUnchecked<T> for Blended<G, F> {
    fn get_unchecked(&self, pos: Pos) -> (r: T) {
        self.source.get_unchecked(pos)
    }
}

/// Conversions of a grid into views of it.
pub trait GridConvertExt: TrustedSizeGrid + Sized {
    /// This grid magnified `factor` times by nearest neighbour.
    fn scale(self, factor: usize) -> (r: Scaled<Self>)
        requires
            self.wf(),
            scale_fits(self.spec_size(), factor),
        ensures
            r.wf(),
            r.spec_source() == self,
            r.spec_scale() == factor,
    {
        Scaled::new(self, factor)
    }

    /// This grid with `f` applied to each element.
    fn map<T: Copy, U: Copy, F: Fn(T) -> U>(self, f: F) -> (r: Mapped<T, Self, F>)
        where
            Self: GridBase<T>,
        requires
            self.wf(),
            is_function(f),
        ensures
            r.wf(),
            r.spec_source() == self,
            r.spec_f() == f,
    {
        Mapped::new(self, f)
    }

    /// This grid, written through `blend`.
    fn blend<F>(self, blend: F) -> (r: Blended<Self, F>)
        requires
            self.wf(),
        ensures
            r.wf(),
            r.spec_source() == self,
            r.spec_blend() == blend,
    {
        Blended::new(self, blend)
    }

    /// A new grid laid out by `L` that holds this grid's elements, cell for cell.
    fn collect<T: Copy, L: Linear>(&self) -> (r: GridBuf<T, L>)
        where
            Self: GridReadUnchecked<T>,
        requires
            self.wf(),
            L::supports(self.spec_size()),
        ensures
            r.wf(),
            r.spec_size() == self.spec_size(),
            forall|p: Pos| r.spec_size().spec_contains(p) ==> #[trigger] r.cell(p) == self.cell(p),
    {
        let size = self.size();
        proof {
            self.lemma_wf();
        }
        let n = size.width * size.height;
        let mut buffer: Vec<T> = Vec::new();
        let mut i: usize = 0;
        while i < n
            invariant
                self.wf(),
                size == self.spec_size(),
                n == size.area(),
                size.fits(),
                L::supports(size),
                i <= n,
                buffer@.len() == i,
                forall|j: int| 0 <= j < i ==> #[trigger] buffer@[j] == self.cell(L::pos_of(j, size)),
            decreases n - i,
        {
            let p = L::to_2d(i, size);
            proof {
                L::lemma_pos_of(i as int, size);
            }
            buffer.push(self.get_unchecked(p));
            i = i + 1;
        }
        let r = GridBuf::with_buffer_unchecked(buffer, size.width, size.height);
        proof {
            assert forall|p: Pos| r.spec_size().spec_contains(p) implies #[trigger] r.cell(p)
                == self.cell(p) by {
                L::lemma_index_of(p, size);
            }
        }
        r
    }

    /// The part of this grid inside `bounds`.
    fn view(self, bounds: Rect) -> (r: Viewed<Self>)
        requires
            self.wf(),
        ensures
            r.wf(),
            r.spec_source() == self,
            r.spec_bounds() == bounds.spec_clip(self.spec_size()),
    {
        Viewed::new(self, bounds)
    }
}

impl<G: TrustedSizeGrid> GridConvertExt for G {

}

} // verus!
