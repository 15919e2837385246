//! A grid of booleans packed one per bit into a buffer of words.

use std::marker::PhantomData;
use vstd::prelude::*;
use crate::bits::BitOps;
use crate::geom::{lemma_rect_area, GridError, Pos, Rect, Size};
use crate::grid::{cells, GridBase, GridReadUnchecked, GridWriteUnchecked, TrustedSizeGrid};
use crate::layout::{lemma_split, order_at, pos_at, Layout, Linear, RowMajor};

verus! {

/// A two-dimensional grid of booleans: the cell at buffer index `i` is bit
/// `i % w` of word `i / w`, where `w` is the word's bit width.
pub struct GridBits<W, L> {
    buffer: Vec<W>,
    width: usize,
    height: usize,
    layout: PhantomData<L>,
}

/// Bit `k` of a buffer of words, counting from the first word's least
/// significant bit.
pub open spec fn bit_at<W: BitOps>(words: Seq<W>, k: int) -> bool {
    words[k / (W::spec_max_width() as int)].spec_bit((k % (W::spec_max_width() as int)) as nat)
}

/// The fewest words of `mw` bits that hold `area` bits: `area / mw`, rounded up.
pub open spec fn words_for(area: nat, mw: nat) -> nat {
    if area % mw == 0 {
        area / mw
    } else {
        area / mw + 1
    }
}

/// The number of bits a buffer of words holds.
pub open spec fn capacity<W: BitOps>(words: Seq<W>) -> nat {
    words.len() * W::spec_max_width()
}

/// Bit `k` of `len` words of `mw` bits lies in word `k / mw`, at bit `k % mw`.
proof fn lemma_word_of(k: int, mw: int, len: int)
    requires
        0 <= k < len * mw,
        mw > 0,
    ensures
        0 <= k / mw < len,
        0 <= k % mw < mw,
        k == (k / mw) * mw + k % mw,
{
    assert(len * mw == mw * len) by (nonlinear_arith);
    lemma_split(k, mw, len);
}

impl<W: BitOps, L: Linear> GridBits<W, L> {
    /// The backing words.
    pub closed spec fn spec_words(&self) -> Seq<W> {
        self.buffer@
    }

    /// A grid over `buffer`, `width` columns wide; the height is the number of
    /// bits the buffer holds divided by `width`, which must divide it exactly.
    pub fn from_buffer(buffer: Vec<W>, width: usize) -> (r: Self)
        requires
            width > 0,
            capacity(buffer@) <= usize::MAX,
            capacity(buffer@) % (width as nat) == 0,
            L::supports(Size::new_spec(width, (capacity(buffer@) / (width as nat)) as usize)),
        ensures
            r.wf(),
            r.spec_size() == Size::new_spec(width, (capacity(buffer@) / (width as nat)) as usize),
            r.spec_words() == buffer@,
    {
        let bits = buffer.len() * W::max_width();
        let height = bits / width;
        proof {
            vstd::arithmetic::div_mod::lemma_fundamental_div_mod(bits as int, width as int);
            assert(width * height == height * width) by (nonlinear_arith);
        }
        GridBits { buffer, width, height, layout: PhantomData }
    }

    /// A grid over `buffer`, `width` columns wide, or an error when `width` is
    /// zero or does not divide the number of bits the buffer holds (or that
    /// number exceeds a `usize`), or the layout cannot arrange the inferred
    /// size; the buffer is never truncated or padded.
    pub fn try_from_buffer(buffer: Vec<W>, width: usize) -> (r: Result<Self, GridError>)
        ensures
            width > 0 && capacity(buffer@) <= usize::MAX && capacity(buffer@) % (width as nat) == 0
                && L::supports(Size::new_spec(width, (capacity(buffer@) / (width as nat)) as usize))
                ==> (r matches Ok(g) && g.wf() && g.spec_size() == Size::new_spec(
                width,
                (capacity(buffer@) / (width as nat)) as usize,
            ) && g.spec_words() == buffer@),
            !(width > 0 && capacity(buffer@) <= usize::MAX && capacity(buffer@) % (width as nat)
                == 0) ==> r == Err::<Self, GridError>(
                GridError::SizeMismatch { len: buffer@.len() as usize, width, height: 0 },
            ),
            width > 0 && capacity(buffer@) <= usize::MAX && capacity(buffer@) % (width as nat) == 0
                && !L::supports(Size::new_spec(width, (capacity(buffer@) / (width as nat)) as usize))
                ==> r == Err::<Self, GridError>(
                GridError::LayoutMismatch {
                    width,
                    height: (capacity(buffer@) / (width as nat)) as usize,
                },
            ),
    {
        let len = buffer.len();
        let bits = match len.checked_mul(W::max_width()) {
            Some(bits) => bits,
            None => {
                return Err(GridError::SizeMismatch { len, width, height: 0 });
            },
        };
        if width == 0 || bits % width != 0 {
            return Err(GridError::SizeMismatch { len, width, height: 0 });
        }
        let height = bits / width;
        if !L::supports_size(Size::new(width, height)) {
            return Err(GridError::LayoutMismatch { width, height });
        }
        Ok(Self::from_buffer(buffer, width))
    }

    /// A grid over `buffer` with the given dimensions, or an error when the
    /// buffer holds fewer than `width * height` bits (or more than a `usize`
    /// can count), or the layout cannot arrange a grid of that size.
    pub fn with_buffer(buffer: Vec<W>, width: usize, height: usize) -> (r: Result<Self, GridError>)
        ensures
            width * height <= capacity(buffer@) <= usize::MAX && L::supports(
                Size::new_spec(width, height),
            ) ==> (r matches Ok(g) && g.wf() && g.spec_size() == Size::new_spec(width, height)
                && g.spec_words() == buffer@),
            !(width * height <= capacity(buffer@) <= usize::MAX) ==> r == Err::<Self, GridError>(
                GridError::SizeMismatch { len: buffer@.len() as usize, width, height },
            ),
            width * height <= capacity(buffer@) <= usize::MAX && !L::supports(
                Size::new_spec(width, height),
            ) ==> r == Err::<Self, GridError>(GridError::LayoutMismatch { width, height }),
    {
        let len = buffer.len();
        let bits = len.checked_mul(W::max_width());
        let area = width.checked_mul(height);
        match (bits, area) {
            (Some(bits), Some(area)) => {
                if area > bits {
                    Err(GridError::SizeMismatch { len, width, height })
                } else if !L::supports_size(Size::new(width, height)) {
                    Err(GridError::LayoutMismatch { width, height })
                } else {
                    Ok(GridBits { buffer, width, height, layout: PhantomData })
                }
            },
            _ => Err(GridError::SizeMismatch { len, width, height }),
        }
    }

    /// A new grid laid out by `L`, every cell `false`, in as few words as
    /// hold `width * height` bits.
    pub fn new_with_layout(width: usize, height: usize) -> (r: Self)
        requires
            width * height + W::spec_max_width() <= usize::MAX,
            L::supports(Size::new_spec(width, height)),
        ensures
            r.wf(),
            r.spec_size() == Size::new_spec(width, height),
            forall|p: Pos| r.spec_size().spec_contains(p) ==> !#[trigger] r.cell(p),
            r.spec_words().len() == words_for(Size::new_spec(width, height).area(), W::spec_max_width()),
            forall|j: int, b: nat|
                0 <= j < r.spec_words().len() && b < W::spec_max_width() ==> !#[trigger] r.spec_words()[j].spec_bit(b),
    {
        let mw = W::max_width();
        let area = width * height;
        proof {
            vstd::arithmetic::div_mod::lemma_div_pos_is_pos(area as int, mw as int);
            vstd::arithmetic::div_mod::lemma_fundamental_div_mod(area as int, mw as int);
            vstd::arithmetic::div_mod::lemma_mod_pos_bound(area as int, mw as int);
            assert(area / mw <= area) by (nonlinear_arith)
                requires
                    area == mw * (area / mw) + area % mw,
                    0 <= area % mw,
                    0 <= area / mw,
                    mw >= 1,
            ;
        }
        let n = if area % mw == 0 {
            area / mw
        } else {
            area / mw + 1
        };
        proof {
            vstd::arithmetic::div_mod::lemma_fundamental_div_mod(area as int, mw as int);
            vstd::arithmetic::div_mod::lemma_mod_pos_bound(area as int, mw as int);
            assert(area <= n * mw <= area + mw) by (nonlinear_arith)
                requires
                    area == mw * (area / mw) + area % mw,
                    0 <= area % mw < mw,
                    n == (if area % mw == 0 {
                        (area / mw) as int
                    } else {
                        area / mw + 1
                    }),
            ;
        }
        let zero = W::zero();
        let mut buffer: Vec<W> = Vec::new();
        let mut i: usize = 0;
        while i < n
            invariant
                i <= n,
                buffer@ == Seq::new(i as nat, |j: int| zero),
            decreases n - i,
        {
            buffer.push(zero);
            i = i + 1;
            assert(buffer@ =~= Seq::new(i as nat, |j: int| zero));
        }
        let r = GridBits { buffer, width, height, layout: PhantomData };
        proof {
            assert forall|p: Pos| r.spec_size().spec_contains(p) implies !#[trigger] r.cell(p) by {
                let size = r.spec_size();
                L::lemma_index_of(p, size);
                let k = L::index_of(p, size);
                lemma_word_of(k, mw as int, n as int);
            }
        }
        r
    }

    /// Consumes the grid, handing back its words, width and height.
    pub fn into_inner(self) -> (r: (Vec<W>, usize, usize))
        ensures
            r.0@ == self.spec_words(),
            r.1 == self.spec_size().width,
            r.2 == self.spec_size().height,
    {
        (self.buffer, self.width, self.height)
    }

    /// The backing words.
    pub fn as_ref(&self) -> (r: &[W])
        ensures
            r@ == self.spec_words(),
    {
        self.buffer.as_slice()
    }

    /// Every cell of the grid, in layout order; the padding bits past
    /// `width * height` are not cells and are not yielded.
    pub fn iter(&self) -> (r: Vec<bool>)
        requires
            self.wf(),
        ensures
            r@ == cells(self, L::traversal(), self.spec_size().to_spec_rect()),
            r@.len() == self.spec_size().area(),
    {
        let whole = Size::new(self.width, self.height).to_rect();
        self.iter_rect_unchecked(whole)
    }
}

impl<W: BitOps> GridBits<W, RowMajor> {
    /// A new row-major grid, every cell `false`.
    pub fn new(width: usize, height: usize) -> (r: Self)
        requires
            width * height + W::spec_max_width() <= usize::MAX,
        ensures
            r.wf(),
            r.spec_size() == Size::new_spec(width, height),
            forall|p: Pos| r.spec_size().spec_contains(p) ==> !#[trigger] r.cell(p),
            r.spec_words().len() == words_for(Size::new_spec(width, height).area(), W::spec_max_width()),
            forall|j: int, b: nat|
                0 <= j < r.spec_words().len() && b < W::spec_max_width() ==> !#[trigger] r.spec_words()[j].spec_bit(b),
    {
        Self::new_with_layout(width, height)
    }
}

impl<W: BitOps, L: Linear> TrustedSizeGrid for GridBits<W, L> {
    open spec fn wf(&self) -> bool {
        &&& self.spec_size().area() <= capacity(self.spec_words())
        &&& capacity(self.spec_words()) <= usize::MAX
        &&& 0 < W::spec_max_width()
        &&& L::supports(self.spec_size())
    }

    closed spec fn spec_size(&self) -> Size {
        Size { width: self.width, height: self.height }
    }

    proof fn lemma_wf(&self) {
    }

    fn width(&self) -> (r: usize) {
        self.width
    }

    fn height(&self) -> (r: usize) {
        self.height
    }
}

impl<W: BitOps, L: Linear> GridBase<bool> for GridBits<W, L> {
    type Layout = L;

    open spec fn cell(&self, p: Pos) -> bool {
        bit_at(self.spec_words(), L::index_of(p, self.spec_size()))
    }
}

impl<W: BitOps, L: Linear> GridReadUnchecked<bool> for GridBits<W, L> {
    fn get_unchecked(&self, pos: Pos) -> (r: bool) {
        let size = Size::new(self.width, self.height);
        let mw = W::max_width();
        proof {
            L::lemma_index_of(pos, size);
            lemma_word_of(L::index_of(pos, size), mw as int, self.buffer@.len() as int);
        }
        let i = L::to_1d(pos, size);
        self.buffer[i / mw].bit(i % mw)
    }

    /// Reads an aligned rectangle as one run of bits, and any other
    /// rectangle one position at a time.
    fn iter_rect_unchecked(&self, rect: Rect) -> (r: Vec<bool>) {
        let size = Size::new(self.width, self.height);
        let mw = W::max_width();
        let ghost len = self.buffer@.len() as int;
        proof {
            lemma_rect_area(rect, size);
        }
        let t = L::kind();
        let mut v: Vec<bool> = Vec::new();
        match L::rect_to_range(size, rect) {
            Some((s, e)) => {
                let mut i: usize = s;
                while i < e
                    invariant
                        s <= i <= e,
                        e <= size.area(),
                        size == self.spec_size(),
                        self.wf(),
                        mw == W::spec_max_width(),
                        len == self.buffer@.len(),
                        v@.len() == i - s,
                        forall|j: int| 0 <= j < i - s ==> v@[j] == bit_at(self.spec_words(), s + j),
                    decreases e - i,
                {
                    proof {
                        lemma_word_of(i as int, mw as int, len);
                    }
                    v.push(self.buffer[i / mw].bit(i % mw));
                    i = i + 1;
                }
            },
            None => {
                let n = rect.width * rect.height;
                let mut k: usize = 0;
                while k < n
                    invariant
                        self.wf(),
                        size == self.spec_size(),
                        size.spec_contains_rect(rect),
                        rect.wf(),
                        mw == W::spec_max_width(),
                        len == self.buffer@.len(),
                        t == L::traversal(),
                        n == rect.spec_size().area(),
                        k <= n,
                        v@.len() == k,
                        forall|j: int|
                            0 <= j < k ==> v@[j] == self.cell(#[trigger] order_at(t, rect, j)),
                    decreases n - k,
                {
                    let p = pos_at(t, rect, k);
                    proof {
                        L::lemma_index_of(p, size);
                        lemma_word_of(L::index_of(p, size), mw as int, len);
                    }
                    let i = L::to_1d(p, size);
                    v.push(self.buffer[i / mw].bit(i % mw));
                    k = k + 1;
                }
            },
        }
        assert(v@ =~= cells(self, t, rect));
        v
    }
}

impl<W: BitOps, L: Linear> GridWriteUnchecked<bool> for GridBits<W, L> {
    /// Sets one bit of one word: every other word, and every other bit of
    /// that word (padding included), keeps its value.
    fn set_unchecked(&mut self, pos: Pos, value: bool)
        ensures
            final(self).spec_words().len() == old(self).spec_words().len(),
            forall|j: int|
                0 <= j < old(self).spec_words().len() && j != L::index_of(pos, old(self).spec_size())
                    / (W::spec_max_width() as int) ==> #[trigger] final(self).spec_words()[j]
                    == old(self).spec_words()[j],
            forall|k: int|
                0 <= k < capacity(old(self).spec_words()) ==> #[trigger] bit_at(final(self).spec_words(), k)
                    == (if k == L::index_of(pos, old(self).spec_size()) {
                    value
                } else {
                    bit_at(old(self).spec_words(), k)
                }),
    {
        let size = Size::new(self.width, self.height);
        let mw = W::max_width();
        let ghost len = self.buffer@.len() as int;
        proof {
            L::lemma_index_of(pos, size);
            lemma_word_of(L::index_of(pos, size), mw as int, len);
        }
        let i = L::to_1d(pos, size);
        let word = self.buffer[i / mw].with_bit(i % mw, value);
        self.buffer.set(i / mw, word);
        proof {
            assert forall|q: Pos| #[trigger]
                self.cell(q) == (if q == pos {
                    value
                } else {
                    old(self).cell(q)
                }) || !self.spec_size().spec_contains(q) by {
                if size.spec_contains(q) {
                    L::lemma_index_of(q, size);
                    let j = L::index_of(q, size);
                    lemma_word_of(j, mw as int, len);
                    if j / (mw as int) == i / mw && j % (mw as int) == i % mw {
                        assert(j == i);
                    }
                }
            }
            assert forall|k: int| 0 <= k < capacity(old(self).spec_words()) implies #[trigger] bit_at(
                self.spec_words(),
                k,
            ) == (if k == i {
                value
            } else {
                bit_at(old(self).spec_words(), k)
            }) by {
                lemma_word_of(k, mw as int, len);
                if k / (mw as int) == i / mw && k % (mw as int) == i % mw {
                    assert(k == i);
                }
            }
        }
    }
}

} // verus!
