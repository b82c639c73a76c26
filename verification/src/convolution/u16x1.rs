//! Passes over images of one 16-bit sample per pixel.
use super::{avx2, native, Coefficients, ContractViolation, Convolution};
use crate::image_view::{TypedImageView, TypedImageViewMut};
use crate::pixels::U16;
use crate::{CpuExtensions, Kernel};
use vstd::prelude::*;

verus! {

impl Convolution for U16 {
    fn horiz_convolution(
        src_image: TypedImageView<Self>,
        dst_image: TypedImageViewMut<Self>,
        offset: u32,
        coeffs: Coefficients,
        cpu_extensions: CpuExtensions,
    ) -> (r: Result<(), ContractViolation>) {
        match cpu_extensions.kernel() {
            Kernel::Lanes => avx2::horiz_convolution(src_image, dst_image, offset, coeffs),
            Kernel::Scalar => native::horiz_convolution(src_image, dst_image, offset, coeffs),
        }
    }

    fn vert_convolution(
        src_image: TypedImageView<Self>,
        dst_image: TypedImageViewMut<Self>,
        coeffs: Coefficients,
        cpu_extensions: CpuExtensions,
    ) -> (r: Result<(), ContractViolation>) {
        match cpu_extensions.kernel() {
            Kernel::Lanes => avx2::vert_convolution(src_image, dst_image, coeffs),
            Kernel::Scalar => native::vert_convolution(src_image, dst_image, coeffs),
        }
    }
}

} // verus!
