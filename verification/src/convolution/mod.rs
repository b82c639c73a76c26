//! One-dimensional convolution passes and the value they compute.
//!
//! The functions at the top of this module define the output of a pass as
//! plain integer arithmetic. The kernels in `native` and `avx2` are proved
//! against these definitions and against nothing else.
use crate::image_view::{rows_of, TypedImageView, TypedImageViewMut};
use crate::pixels::{samples, Pixel};
use crate::CpuExtensions;
use optimisations::{
    chosen_precision, lemma_chunks_fit, new_violation, normalized, CoefficientsI32Chunk,
    NormalizedView, NormalizerGuard32,
};
use vstd::arithmetic::power2::pow2;
use vstd::prelude::*;

pub mod avx2;
pub mod builder;
pub mod filters;
pub mod lemmas;
pub mod native;
pub mod optimisations;
pub mod theorems;
pub mod u16x1;
pub mod u8x1;

verus! {

/// A weight of one. Weights handed to this crate are signed fixed-point
/// numbers with `WEIGHT_FRACTION_BITS` fractional bits.
pub const WEIGHT_ONE: i64 = 0x10_0000_0000_0000;

/// Fractional bits of a weight before it is normalized.
pub const WEIGHT_FRACTION_BITS: u8 = 52;

/// The window of one destination index: `size` neighbouring source samples,
/// the first at `start`.
#[derive(Debug, Clone, Copy, PartialEq, Eq, Structural)]
pub struct Bound {
    pub start: u32,
    pub size: u32,
}

/// The filter of one axis: a window and its weights for every destination
/// index.
///
/// `values` is flat and uniform: destination index `i` owns the `window_size`
/// entries from `i * window_size` on, of which the first `bounds[i].size` are
/// the weights of its taps, in ascending source order.
#[derive(Debug, Clone)]
pub struct Coefficients {
    pub values: Vec<i64>,
    pub window_size: usize,
    pub bounds: Vec<Bound>,
}

/// Why a call was refused. Nothing is written to the destination of a
/// refused call.
#[derive(Debug, Clone, Copy, PartialEq, Eq, Structural)]
pub enum ContractViolation {
    /// The number of windows is not the extent of the destination along the
    /// convolution axis.
    BoundsCount,
    /// The source does not cover the destination: too few rows below the row
    /// offset, or a different width in a vertical pass.
    ImageSize,
    /// A window reaches past the end of the source.
    WindowOutOfRange,
    /// `values` does not hold `window_size` entries per window, or a window
    /// has more taps than `window_size`.
    CoefficientsLayout,
    /// No precision keeps the worst-case sum of a window inside the 64-bit
    /// accumulator.
    AccumulatorOverflow,
    /// A weight does not fit its storage once it is normalized, or the
    /// magnitudes of a window's weights add up to more than `window_size`.
    WeightOutOfRange,
    /// The source or the destination has no samples along the axis.
    EmptyAxis,
    /// The support radius of the filter is negative.
    NegativeSupport,
    /// One entry per window and tap would be more entries than can be
    /// addressed.
    TooLarge,
}

/// The weighted sum of the first `n` taps of a window that starts at `start`:
/// the sum over `k < n` of `samples[start + k] * weights[k]`.
pub open spec fn window_sum(samples: Seq<int>, start: int, weights: Seq<int>, n: int) -> int
    decreases n,
{
    if n <= 0 {
        0
    } else {
        window_sum(samples, start, weights, n - 1) + samples[start + n - 1] * weights[n - 1]
    }
}

/// The sum of the magnitudes of the first `n` weights.
pub open spec fn magnitude_sum(weights: Seq<int>, n: int) -> int
    decreases n,
{
    if n <= 0 {
        0
    } else {
        magnitude_sum(weights, n - 1) + magnitude(weights[n - 1])
    }
}

/// The sum of the magnitudes of the first `n` products of a window: the sum
/// over `k < n` of `|samples[start + k] * weights[k]|`. No partial sum of the
/// window, taken in any order and over any subset of its taps, is larger in
/// magnitude.
pub open spec fn window_magnitude(samples: Seq<int>, start: int, weights: Seq<int>, n: int) -> int
    decreases n,
{
    if n <= 0 {
        0
    } else {
        window_magnitude(samples, start, weights, n - 1) + magnitude(
            samples[start + n - 1] * weights[n - 1],
        )
    }
}

/// `|v|`.
#[verifier::opaque]
pub open spec fn magnitude(v: int) -> int {
    if v < 0 {
        -v
    } else {
        v
    }
}

/// The rounding constant of a fixed-point sum with `precision` fractional
/// bits: one half, `2^(precision - 1)`.
pub open spec fn half_error(precision: nat) -> int
    recommends
        precision >= 1,
{
    pow2((precision - 1) as nat) as int
}

/// A fixed-point sum brought back to a sample: the `precision` fractional bits
/// are dropped (rounding toward minus infinity) and the quotient is saturated
/// to `[0, max]`.
pub open spec fn clip(sum: int, precision: nat, max: int) -> int {
    crate::pixels::saturate(sum / (pow2(precision) as int), max)
}

/// The output sample of one window: the weighted sum of all its taps, plus one
/// half, clipped.
pub open spec fn convolved(
    samples: Seq<int>,
    start: int,
    weights: Seq<int>,
    precision: nat,
    max: int,
) -> int {
    clip(
        window_sum(samples, start, weights, weights.len() as int) + half_error(precision),
        precision,
        max,
    )
}

/// Every window of `coeffs` lies inside a source of `source_len` samples.
pub open spec fn windows_inside(coeffs: Coefficients, source_len: int) -> bool {
    forall|i: int|
        0 <= i < coeffs.bounds.len() ==> (#[trigger] coeffs.bounds[i]).start
            + coeffs.bounds[i].size <= source_len
}

/// Why a horizontal pass is refused, if it is: the first of the checks, in
/// this order, that fails.
pub open spec fn horiz_violation<P: Pixel>(
    src_image: TypedImageView<P>,
    dst_image: TypedImageViewMut<P>,
    offset: u32,
    coeffs: Coefficients,
) -> Option<ContractViolation> {
    if coeffs.bounds.len() != dst_image.spec_width() {
        Some(ContractViolation::BoundsCount)
    } else if offset + dst_image.spec_height() > src_image.spec_height() {
        Some(ContractViolation::ImageSize)
    } else if !windows_inside(coeffs, src_image.spec_width() as int) {
        Some(ContractViolation::WindowOutOfRange)
    } else {
        new_violation(coeffs, P::max_value())
    }
}

/// `out` is the horizontal pass of `normalized` over the rows of `src` from
/// `offset` on: pixel `x` of row `y` is the convolved sample of chunk `x`
/// over source row `y + offset`.
pub open spec fn is_horiz_convolution<P: Pixel>(
    src: Seq<Seq<P>>,
    out: Seq<Seq<P>>,
    offset: int,
    normalized: NormalizedView,
) -> bool {
    forall|y: int, x: int|
        0 <= y < out.len() && 0 <= x < normalized.chunks.len() ==> (#[trigger] out[y][x]).value()
            == convolved(
            samples(src[y + offset]),
            normalized.chunks[x].start,
            normalized.chunks[x].weights,
            normalized.precision,
            normalized.max_value,
        )
}

/// What a horizontal pass owes its caller: a refusal that names the first
/// failed check and leaves the destination as it was, or a destination of
/// unchanged size that is the pass of the normalized coefficients.
pub open spec fn horiz_outcome<P: Pixel>(
    src_image: TypedImageView<P>,
    dst_image: TypedImageViewMut<P>,
    offset: u32,
    coeffs: Coefficients,
    written: Seq<P>,
    r: Result<(), ContractViolation>,
) -> bool {
    match r {
        Err(e) => {
            &&& horiz_violation(src_image, dst_image, offset, coeffs) == Some(e)
            &&& written == dst_image.buffer()@
        },
        Ok(_) => {
            &&& horiz_violation(src_image, dst_image, offset, coeffs) is None
            &&& written.len() == dst_image.buffer()@.len()
            &&& chosen_precision(P::max_value(), coeffs.window_size as int) matches Some(p)
            &&& is_horiz_convolution(
                src_image@,
                rows_of(written, dst_image.spec_width(), dst_image.spec_height()),
                offset as int,
                normalized(coeffs, p, P::max_value()),
            )
        },
    }
}

/// Whether `chunks` are the chunks of `guard`, made for the samples of `P`,
/// and each of them fits a source of `source_len` samples.
pub open spec fn chunks_ready<P: Pixel>(
    chunks: Seq<CoefficientsI32Chunk>,
    guard: NormalizerGuard32,
    source_len: int,
) -> bool {
    &&& guard.wf()
    &&& guard@.max_value == P::max_value()
    &&& chunks.len() == guard@.chunks.len()
    &&& forall|i: int| 0 <= i < chunks.len() ==> (#[trigger] chunks[i])@ == guard@.chunks[i]
    &&& forall|i: int|
        0 <= i < chunks.len() ==> (#[trigger] guard@.chunks[i]).fits(
            source_len,
            guard@.precision,
            P::max_value(),
        )
}

/// Column `x` of an image, top to bottom, as samples.
pub open spec fn column<P: Pixel>(image: Seq<Seq<P>>, x: int) -> Seq<int> {
    Seq::new(image.len(), |y: int| image[y][x].value())
}

/// Why a vertical pass is refused, if it is: the first of the checks, in this
/// order, that fails.
pub open spec fn vert_violation<P: Pixel>(
    src_image: TypedImageView<P>,
    dst_image: TypedImageViewMut<P>,
    coeffs: Coefficients,
) -> Option<ContractViolation> {
    if coeffs.bounds.len() != dst_image.spec_height() {
        Some(ContractViolation::BoundsCount)
    } else if src_image.spec_width() != dst_image.spec_width() {
        Some(ContractViolation::ImageSize)
    } else if !windows_inside(coeffs, src_image.spec_height() as int) {
        Some(ContractViolation::WindowOutOfRange)
    } else {
        new_violation(coeffs, P::max_value())
    }
}

/// `out` is the vertical pass of `normalized` over `src`: pixel `x` of row
/// `y` is the convolved sample of chunk `y` over source column `x`.
pub open spec fn is_vert_convolution<P: Pixel>(
    src: Seq<Seq<P>>,
    out: Seq<Seq<P>>,
    width: int,
    normalized: NormalizedView,
) -> bool {
    forall|y: int, x: int|
        0 <= y < out.len() && 0 <= x < width ==> (#[trigger] out[y][x]).value() == convolved(
            column(src, x),
            normalized.chunks[y].start,
            normalized.chunks[y].weights,
            normalized.precision,
            normalized.max_value,
        )
}

/// What a vertical pass owes its caller: a refusal that names the first
/// failed check and leaves the destination as it was, or a destination of
/// unchanged size that is the pass of the normalized coefficients.
pub open spec fn vert_outcome<P: Pixel>(
    src_image: TypedImageView<P>,
    dst_image: TypedImageViewMut<P>,
    coeffs: Coefficients,
    written: Seq<P>,
    r: Result<(), ContractViolation>,
) -> bool {
    match r {
        Err(e) => {
            &&& vert_violation(src_image, dst_image, coeffs) == Some(e)
            &&& written == dst_image.buffer()@
        },
        Ok(_) => {
            &&& vert_violation(src_image, dst_image, coeffs) is None
            &&& written.len() == dst_image.buffer()@.len()
            &&& chosen_precision(P::max_value(), coeffs.window_size as int) matches Some(p)
            &&& is_vert_convolution(
                src_image@,
                rows_of(written, dst_image.spec_width(), dst_image.spec_height()),
                dst_image.spec_width() as int,
                normalized(coeffs, p, P::max_value()),
            )
        },
    }
}

/// The two passes of a pixel type, on the kernel family of the caller's
/// choice.
///
/// Which family runs decides how the work is scheduled and nothing else: the
/// outcome of a pass is stated without a word about `cpu_extensions`.
pub trait Convolution: Pixel {
    /// Convolves every row of the source from row `offset` on into the
    /// destination row of the same number less `offset`.
    fn horiz_convolution(
        src_image: TypedImageView<Self>,
        dst_image: TypedImageViewMut<Self>,
        offset: u32,
        coeffs: Coefficients,
        cpu_extensions: CpuExtensions,
    ) -> (r: Result<(), ContractViolation>)
        requires
            src_image.wf(),
            dst_image.wf(),
        ensures
            horiz_outcome(src_image, dst_image, offset, coeffs, final(dst_image.buffer())@, r),
    ;

    /// Convolves every column of the source into the destination column of
    /// the same number.
    fn vert_convolution(
        src_image: TypedImageView<Self>,
        dst_image: TypedImageViewMut<Self>,
        coeffs: Coefficients,
        cpu_extensions: CpuExtensions,
    ) -> (r: Result<(), ContractViolation>)
        requires
            src_image.wf(),
            dst_image.wf(),
        ensures
            vert_outcome(src_image, dst_image, coeffs, final(dst_image.buffer())@, r),
    ;
}

/// Tests `windows_inside`.
pub fn check_windows(coeffs: &Coefficients, source_len: u32) -> (inside: bool)
    ensures
        inside == windows_inside(*coeffs, source_len as int),
{
    let count: usize = coeffs.bounds.len();
    let mut i: usize = 0;
    while i < count
        invariant
            i <= count,
            count == coeffs.bounds.len(),
            forall|j: int|
                0 <= j < i ==> (#[trigger] coeffs.bounds[j]).start + coeffs.bounds[j].size
                    <= source_len,
        decreases count - i,
    {
        let bound: Bound = coeffs.bounds[i];
        if bound.start as u64 + bound.size as u64 > source_len as u64 {
            return false;
        }
        i += 1;
    }
    true
}

/// Checks a horizontal pass and normalizes its coefficients for it.
pub fn prepare_horiz<P: Pixel>(
    src_image: &TypedImageView<P>,
    dst_image: &TypedImageViewMut<P>,
    offset: u32,
    coeffs: Coefficients,
) -> (r: Result<NormalizerGuard32, ContractViolation>)
    ensures
        match r {
            Err(e) => horiz_violation(*src_image, *dst_image, offset, coeffs) == Some(e),
            Ok(guard) => {
                &&& horiz_violation(*src_image, *dst_image, offset, coeffs) is None
                &&& guard.wf()
                &&& chosen_precision(P::max_value(), coeffs.window_size as int) matches Some(p)
                &&& guard@ == normalized(coeffs, p, P::max_value())
                &&& forall|x: int|
                    0 <= x < guard@.chunks.len() ==> (#[trigger] guard@.chunks[x]).fits(
                        src_image.spec_width() as int,
                        guard@.precision,
                        P::max_value(),
                    )
            },
        },
{
    if coeffs.bounds.len() as u64 != dst_image.width() as u64 {
        return Err(ContractViolation::BoundsCount);
    }
    if offset as u64 + dst_image.height() as u64 > src_image.height() as u64 {
        return Err(ContractViolation::ImageSize);
    }
    if !check_windows(&coeffs, src_image.width()) {
        return Err(ContractViolation::WindowOutOfRange);
    }
    match NormalizerGuard32::new::<P>(coeffs) {
        Err(e) => Err(e),
        Ok(guard) => {
            proof {
                assert forall|i: int| 0 <= i < guard@.chunks.len() implies 0 <= (
                #[trigger] guard@.chunks[i]).start && guard@.chunks[i].start
                    + guard@.chunks[i].weights.len() <= src_image.spec_width() by {
                    assert(coeffs.bounds[i].start + coeffs.bounds[i].size
                        <= src_image.spec_width());
                }
                lemma_chunks_fit(guard@, src_image.spec_width() as int);
            }
            Ok(guard)
        },
    }
}

/// Checks a vertical pass and normalizes its coefficients for it.
pub fn prepare_vert<P: Pixel>(
    src_image: &TypedImageView<P>,
    dst_image: &TypedImageViewMut<P>,
    coeffs: Coefficients,
) -> (r: Result<NormalizerGuard32, ContractViolation>)
    ensures
        match r {
            Err(e) => vert_violation(*src_image, *dst_image, coeffs) == Some(e),
            Ok(guard) => {
                &&& vert_violation(*src_image, *dst_image, coeffs) is None
                &&& guard.wf()
                &&& chosen_precision(P::max_value(), coeffs.window_size as int) matches Some(p)
                &&& guard@ == normalized(coeffs, p, P::max_value())
                &&& forall|y: int|
                    0 <= y < guard@.chunks.len() ==> (#[trigger] guard@.chunks[y]).fits(
                        src_image.spec_height() as int,
                        guard@.precision,
                        P::max_value(),
                    )
            },
        },
{
    if coeffs.bounds.len() as u64 != dst_image.height() as u64 {
        return Err(ContractViolation::BoundsCount);
    }
    if src_image.width() != dst_image.width() {
        return Err(ContractViolation::ImageSize);
    }
    if !check_windows(&coeffs, src_image.height()) {
        return Err(ContractViolation::WindowOutOfRange);
    }
    match NormalizerGuard32::new::<P>(coeffs) {
        Err(e) => Err(e),
        Ok(guard) => {
            proof {
                assert forall|i: int| 0 <= i < guard@.chunks.len() implies 0 <= (
                #[trigger] guard@.chunks[i]).start && guard@.chunks[i].start
                    + guard@.chunks[i].weights.len() <= src_image.spec_height() by {
                    assert(coeffs.bounds[i].start + coeffs.bounds[i].size
                        <= src_image.spec_height());
                }
                lemma_chunks_fit(guard@, src_image.spec_height() as int);
            }
            Ok(guard)
        },
    }
}

} // verus!
