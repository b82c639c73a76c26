//! Pixel element types: storage width and valid range of one sample.
use vstd::arithmetic::power2::{lemma2_to64, pow2};
use vstd::prelude::*;

verus! {

/// A single-channel pixel: an unsigned sample of fixed bit width.
///
/// The kernels read a pixel through `to_i64` and write one through
/// `from_i64_saturating`; nothing else about a pixel type matters to them.
pub trait Pixel: Copy + Sized {
    /// Bits of storage per sample.
    spec fn bits() -> nat;

    /// Largest sample the type can hold.
    spec fn max_value() -> int;

    /// The sample as a mathematical integer.
    spec fn value(self) -> int;

    /// Every pattern of the bits of a sample is a sample, and no pixel type is
    /// wider than sixteen bits.
    proof fn lemma_max_value_range()
        ensures
            1 <= Self::bits() <= 16,
            Self::max_value() == pow2(Self::bits()) - 1,
            0 < Self::max_value() <= 0xFFFF,
    ;

    /// Every sample lies in `[0, max_value()]`.
    proof fn lemma_value_range(self)
        ensures
            0 <= self.value() <= Self::max_value(),
            0 < Self::max_value() <= 0xFFFF,
    ;

    /// A pixel is nothing but its sample.
    proof fn lemma_value_determines(self, other: Self)
        requires
            self.value() == other.value(),
        ensures
            self == other,
    ;

    /// Bits of storage per sample.
    fn bit_width() -> (bits: u8)
        ensures
            bits == Self::bits(),
    ;

    /// The largest sample, widened.
    fn max_i64() -> (m: i64)
        ensures
            m == Self::max_value(),
    ;

    /// The sample, widened.
    fn to_i64(self) -> (v: i64)
        ensures
            v == self.value(),
    ;

    /// The pixel nearest to `v`: `v` itself inside `[0, max_value()]`, the
    /// nearer end of the range outside it.
    fn from_i64_saturating(v: i64) -> (p: Self)
        ensures
            p.value() == saturate(v as int, Self::max_value()),
    ;
}

/// `v` clamped to `[0, max]`.
pub open spec fn saturate(v: int, max: int) -> int {
    if v < 0 {
        0
    } else if v > max {
        max
    } else {
        v
    }
}

/// The samples of a run of pixels.
pub open spec fn samples<P: Pixel>(pixels: Seq<P>) -> Seq<int> {
    Seq::new(pixels.len(), |i: int| pixels[i].value())
}

/// One 8-bit sample.
#[derive(Debug, Clone, Copy, PartialEq, Eq, Structural, PartialOrd, Ord, Hash, Default)]
pub struct U8(pub u8);

/// One 16-bit sample.
#[derive(Debug, Clone, Copy, PartialEq, Eq, Structural, PartialOrd, Ord, Hash, Default)]
pub struct U16(pub u16);

impl Pixel for U8 {
    open spec fn bits() -> nat {
        8
    }

    open spec fn max_value() -> int {
        0xFF
    }

    open spec fn value(self) -> int {
        self.0 as int
    }

    proof fn lemma_max_value_range() {
        lemma2_to64();
    }

    proof fn lemma_value_range(self) {
    }

    proof fn lemma_value_determines(self, other: Self) {
    }

    fn bit_width() -> (bits: u8) {
        8
    }

    fn max_i64() -> (m: i64) {
        0xFF
    }

    fn to_i64(self) -> (v: i64) {
        self.0 as i64
    }

    fn from_i64_saturating(v: i64) -> (p: Self) {
        if v < 0 {
            U8(0)
        } else if v > 0xFF {
            U8(0xFF)
        } else {
            U8(v as u8)
        }
    }
}

impl Pixel for U16 {
    open spec fn bits() -> nat {
        16
    }

    open spec fn max_value() -> int {
        0xFFFF
    }

    open spec fn value(self) -> int {
        self.0 as int
    }

    proof fn lemma_max_value_range() {
        lemma2_to64();
    }

    proof fn lemma_value_range(self) {
    }

    proof fn lemma_value_determines(self, other: Self) {
    }

    fn bit_width() -> (bits: u8) {
        16
    }

    fn max_i64() -> (m: i64) {
        0xFFFF
    }

    fn to_i64(self) -> (v: i64) {
        self.0 as i64
    }

    fn from_i64_saturating(v: i64) -> (p: Self) {
        if v < 0 {
            U16(0)
        } else if v > 0xFFFF {
            U16(0xFFFF)
        } else {
            U16(v as u16)
        }
    }
}

} // verus!
