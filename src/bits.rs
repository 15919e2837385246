//! Unsigned integer words used as arrays of single bits.

use vstd::prelude::*;

verus! {

/// Limits the word types to the unsigned integers of this module.
pub trait Sealed {

}

/// An unsigned integer type whose bits are addressed one by one.
pub trait BitOps: Sealed + Copy + Sized {
    /// How many bits a word holds.
    spec fn spec_max_width() -> nat;

    /// The largest value of the type.
    spec fn spec_max() -> nat;

    /// The word as a number.
    spec fn spec_value(self) -> nat;

    /// Whether bit `i` (counted from the least significant) is set.
    spec fn spec_bit(self, i: nat) -> bool;

    /// How many bits a word holds.
    fn max_width() -> (r: usize)
        ensures
            r == Self::spec_max_width(),
            0 < r <= 64,
    ;

    /// The word with every bit clear.
    fn zero() -> (r: Self)
        ensures
            forall|i: nat| i < Self::spec_max_width() ==> !#[trigger] r.spec_bit(i),
    ;

    /// Whether bit `i` is set.
    fn bit(self, i: usize) -> (r: bool)
        requires
            i < Self::spec_max_width(),
        ensures
            r == self.spec_bit(i as nat),
    ;

    /// The word with bit `i` set to `value` and every other bit kept.
    fn with_bit(self, i: usize, value: bool) -> (r: Self)
        requires
            i < Self::spec_max_width(),
        ensures
            forall|j: nat|
                j < Self::spec_max_width() ==> #[trigger] r.spec_bit(j) == (if j == i {
                    value
                } else {
                    self.spec_bit(j)
                }),
    ;

    /// The word as a `usize`, which must hold it.
    fn to_usize(self) -> (r: usize)
        requires
            self.spec_value() <= usize::MAX,
        ensures
            r == self.spec_value(),
    ;

    /// The word holding `value`, which must fit in the type.
    fn from_usize(value: usize) -> (r: Self)
        requires
            value <= Self::spec_max(),
        ensures
            r.spec_value() == value,
    ;
}

/// Each bit of a `u8` can be set, cleared and read on its own.
proof fn lemma_bits_u8(word: u8, i: u8, j: u8) by (bit_vector)
    requires
        i < 8,
        j < 8,
    ensures
        ((word | (1u8 << i)) >> j) & 1u8 == (if j == i { 1u8 } else { (word >> j) & 1u8 }),
        ((word & !(1u8 << i)) >> j) & 1u8 == (if j == i { 0u8 } else { (word >> j) & 1u8 }),
        (0u8 >> j) & 1u8 == 0u8,
{
}

impl Sealed for u8 {

}

impl BitOps for u8 {
    open spec fn spec_max_width() -> nat {
        8
    }

    open spec fn spec_max() -> nat {
        u8::MAX as nat
    }

    open spec fn spec_value(self) -> nat {
        self as nat
    }

    open spec fn spec_bit(self, i: nat) -> bool {
        (self >> (i as u8)) & 1u8 == 1u8
    }

    fn max_width() -> (r: usize) {
        8
    }

    fn zero() -> (r: u8) {
        proof {
            assert forall|i: nat| i < 8 implies !0u8.spec_bit(i) by {
                lemma_bits_u8(0u8, 0u8, i as u8);
            }
        }
        0
    }

    fn bit(self, i: usize) -> (r: bool) {
        (self >> (i as u8)) & 1 == 1
    }

    fn with_bit(self, i: usize, value: bool) -> (r: u8) {
        let mask: u8 = 1u8 << (i as u8);
        let r = if value {
            self | mask
        } else {
            self & !mask
        };
        proof {
            assert forall|j: nat| j < 8 implies r.spec_bit(j) == (if j == i {
                value
            } else {
                self.spec_bit(j)
            }) by {
                lemma_bits_u8(self, i as u8, j as u8);
            }
        }
        r
    }

    fn to_usize(self) -> (r: usize) {
        self as usize
    }

    fn from_usize(value: usize) -> (r: u8) {
        value as u8
    }
}

/// Each bit of a `u16` can be set, cleared and read on its own.
proof fn lemma_bits_u16(word: u16, i: u16, j: u16) by (bit_vector)
    requires
        i < 16,
        j < 16,
    ensures
        ((word | (1u16 << i)) >> j) & 1u16 == (if j == i { 1u16 } else { (word >> j) & 1u16 }),
        ((word & !(1u16 << i)) >> j) & 1u16 == (if j == i { 0u16 } else { (word >> j) & 1u16 }),
        (0u16 >> j) & 1u16 == 0u16,
{
}

impl Sealed for u16 {

}

impl BitOps for u16 {
    open spec fn spec_max_width() -> nat {
        16
    }

    open spec fn spec_max() -> nat {
        u16::MAX as nat
    }

    open spec fn spec_value(self) -> nat {
        self as nat
    }

    open spec fn spec_bit(self, i: nat) -> bool {
        (self >> (i as u16)) & 1u16 == 1u16
    }

    fn max_width() -> (r: usize) {
        16
    }

    fn zero() -> (r: u16) {
        proof {
            assert forall|i: nat| i < 16 implies !0u16.spec_bit(i) by {
                lemma_bits_u16(0u16, 0u16, i as u16);
            }
        }
        0
    }

    fn bit(self, i: usize) -> (r: bool) {
        (self >> (i as u16)) & 1 == 1
    }

    fn with_bit(self, i: usize, value: bool) -> (r: u16) {
        let mask: u16 = 1u16 << (i as u16);
        let r = if value {
            self | mask
        } else {
            self & !mask
        };
        proof {
            assert forall|j: nat| j < 16 implies r.spec_bit(j) == (if j == i {
                value
            } else {
                self.spec_bit(j)
            }) by {
                lemma_bits_u16(self, i as u16, j as u16);
            }
        }
        r
    }

    fn to_usize(self) -> (r: usize) {
        self as usize
    }

    fn from_usize(value: usize) -> (r: u16) {
        value as u16
    }
}

/// Each bit of a `u32` can be set, cleared and read on its own.
proof fn lemma_bits_u32(word: u32, i: u32, j: u32) by (bit_vector)
    requires
        i < 32,
        j < 32,
    ensures
        ((word | (1u32 << i)) >> j) & 1u32 == (if j == i { 1u32 } else { (word >> j) & 1u32 }),
        ((word & !(1u32 << i)) >> j) & 1u32 == (if j == i { 0u32 } else { (word >> j) & 1u32 }),
        (0u32 >> j) & 1u32 == 0u32,
{
}

impl Sealed for u32 {

}

impl BitOps for u32 {
    open spec fn spec_max_width() -> nat {
        32
    }

    open spec fn spec_max() -> nat {
        u32::MAX as nat
    }

    open spec fn spec_value(self) -> nat {
        self as nat
    }

    open spec fn spec_bit(self, i: nat) -> bool {
        (self >> (i as u32)) & 1u32 == 1u32
    }

    fn max_width() -> (r: usize) {
        32
    }

    fn zero() -> (r: u32) {
        proof {
            assert forall|i: nat| i < 32 implies !0u32.spec_bit(i) by {
                lemma_bits_u32(0u32, 0u32, i as u32);
            }
        }
        0
    }

    fn bit(self, i: usize) -> (r: bool) {
        (self >> (i as u32)) & 1 == 1
    }

    fn with_bit(self, i: usize, value: bool) -> (r: u32) {
        let mask: u32 = 1u32 << (i as u32);
        let r = if value {
            self | mask
        } else {
            self & !mask
        };
        proof {
            assert forall|j: nat| j < 32 implies r.spec_bit(j) == (if j == i {
                value
            } else {
                self.spec_bit(j)
            }) by {
                lemma_bits_u32(self, i as u32, j as u32);
            }
        }
        r
    }

    fn to_usize(self) -> (r: usize) {
        self as usize
    }

    fn from_usize(value: usize) -> (r: u32) {
        value as u32
    }
}

/// Each bit of a `u64` can be set, cleared and read on its own.
proof fn lemma_bits_u64(word: u64, i: u64, j: u64) by (bit_vector)
    requires
        i < 64,
        j < 64,
    ensures
        ((word | (1u64 << i)) >> j) & 1u64 == (if j == i { 1u64 } else { (word >> j) & 1u64 }),
        ((word & !(1u64 << i)) >> j) & 1u64 == (if j == i { 0u64 } else { (word >> j) & 1u64 }),
        (0u64 >> j) & 1u64 == 0u64,
{
}

impl Sealed for u64 {

}

impl BitOps for u64 {
    open spec fn spec_max_width() -> nat {
        64
    }

    open spec fn spec_max() -> nat {
        u64::MAX as nat
    }

    open spec fn spec_value(self) -> nat {
        self as nat
    }

    open spec fn spec_bit(self, i: nat) -> bool {
        (self >> (i as u64)) & 1u64 == 1u64
    }

    fn max_width() -> (r: usize) {
        64
    }

    fn zero() -> (r: u64) {
        proof {
            assert forall|i: nat| i < 64 implies !0u64.spec_bit(i) by {
                lemma_bits_u64(0u64, 0u64, i as u64);
            }
        }
        0
    }

    fn bit(self, i: usize) -> (r: bool) {
        (self >> (i as u64)) & 1 == 1
    }

    fn with_bit(self, i: usize, value: bool) -> (r: u64) {
        let mask: u64 = 1u64 << (i as u64);
        let r = if value {
            self | mask
        } else {
            self & !mask
        };
        proof {
            assert forall|j: nat| j < 64 implies r.spec_bit(j) == (if j == i {
                value
            } else {
                self.spec_bit(j)
            }) by {
                lemma_bits_u64(self, i as u64, j as u64);
            }
        }
        r
    }

    fn to_usize(self) -> (r: usize) {
        self as usize
    }

    fn from_usize(value: usize) -> (r: u64) {
        value as u64
    }
}

/// Setting or clearing one of the low 32 bits of a 32-bit value keeps it 32-bit.
proof fn lemma_low_word(word: u64, i: u64) by (bit_vector)
    requires
        word <= 0xffff_ffff,
        i < 32,
    ensures
        word | (1u64 << i) <= 0xffff_ffff,
        word & !(1u64 << i) <= 0xffff_ffff,
{
}

impl Sealed for usize {

}

/// A `usize` word holds as many bits as the target's pointers.
impl BitOps for usize {
    open spec fn spec_max_width() -> nat {
        usize::BITS as nat
    }

    open spec fn spec_max() -> nat {
        usize::MAX as nat
    }

    open spec fn spec_value(self) -> nat {
        self as nat
    }

    open spec fn spec_bit(self, i: nat) -> bool {
        (self as u64).spec_bit(i)
    }

    fn max_width() -> (r: usize) {
        usize::BITS as usize
    }

    fn zero() -> (r: usize) {
        proof {
            assert forall|i: nat| i < usize::BITS implies !0usize.spec_bit(i) by {
                lemma_bits_u64(0u64, 0u64, i as u64);
            }
        }
        0
    }

    fn bit(self, i: usize) -> (r: bool) {
        ((self as u64) >> (i as u64)) & 1 == 1
    }

    fn with_bit(self, i: usize, value: bool) -> (r: usize) {
        let word = self as u64;
        let mask: u64 = 1u64 << (i as u64);
        let wide = if value {
            word | mask
        } else {
            word & !mask
        };
        proof {
            if usize::BITS == 32 {
                lemma_low_word(word, i as u64);
            }
        }
        let r = wide as usize;
        proof {
            assert forall|j: nat| j < usize::BITS implies r.spec_bit(j) == (if j == i {
                value
            } else {
                self.spec_bit(j)
            }) by {
                lemma_bits_u64(word, i as u64, j as u64);
            }
        }
        r
    }

    fn to_usize(self) -> (r: usize) {
        self
    }

    fn from_usize(value: usize) -> (r: usize) {
        value
    }
}

} // verus!
