//! Separable image resampling on fixed-point weights.
//!
//! A resize is two one-dimensional passes, one along rows and one along
//! columns. Each output sample is the weighted sum of a short window of input
//! samples, rounded to nearest and saturated to the range of the pixel type.
//! Every kernel in this crate is proved to compute exactly that value, so the
//! scalar kernel and the lane-scheduled kernel agree bit for bit.
use vstd::prelude::*;

pub mod convolution;
pub mod image_view;
pub mod pixels;
pub mod simd_utils;

verus! {

/// The kernel family a convolution call runs on.
///
/// The caller probes the machine and passes its choice in; the value is never
/// renegotiated inside a call. A tier for which a pixel type has no kernel of
/// its own runs on the scalar kernel.
#[derive(Debug, Clone, Copy, PartialEq, Eq, Structural)]
pub enum CpuExtensions {
    /// Scalar kernel, one tap at a time.
    Native,
    /// 128-bit registers.
    Sse4_1,
    /// 256-bit registers: four 64-bit accumulator lanes.
    Avx2,
}

/// The kernel families this crate has.
#[derive(Debug, Clone, Copy, PartialEq, Eq, Structural)]
pub enum Kernel {
    /// One tap at a time into one accumulator.
    Scalar,
    /// Groups of taps into four accumulator lanes.
    Lanes,
}

impl CpuExtensions {
    /// The kernel family that runs a pass on this tier: the lanes for the
    /// 256-bit tier, the scalar kernel for every tier without kernels of its
    /// own.
    pub open spec fn spec_kernel(self) -> Kernel {
        match self {
            CpuExtensions::Avx2 => Kernel::Lanes,
            _ => Kernel::Scalar,
        }
    }

    /// The kernel family that runs a pass on this tier.
    pub fn kernel(self) -> (k: Kernel)
        ensures
            k == self.spec_kernel(),
    {
        match self {
            CpuExtensions::Avx2 => Kernel::Lanes,
            _ => Kernel::Scalar,
        }
    }
}

} // verus!
