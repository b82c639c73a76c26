//! The scalar kernels: one tap at a time into one 64-bit accumulator.
use super::lemmas::{
    in_range, lemma_chunk_headroom, lemma_column_in_range, lemma_horiz_row_done,
    lemma_samples_in_range, lemma_vert_row_done,
};
use super::optimisations::{half_error_i64, ChunkView, CoefficientsI32Chunk, NormalizerGuard32};
use super::{
    chunks_ready, column, convolved, half_error, horiz_outcome, is_horiz_convolution,
    is_vert_convolution, prepare_horiz, prepare_vert, vert_outcome, window_sum, Coefficients,
    ContractViolation,
};
use crate::image_view::{rows_of, TypedImageView, TypedImageViewMut};
use crate::pixels::{samples, Pixel};
use crate::simd_utils::lemma_product_of_i32_fits;
use vstd::prelude::*;

verus! {

/// One more tap keeps the accumulator inside 64 bits.
pub proof fn lemma_tap_step(
    samples: Seq<int>,
    chunk: ChunkView,
    precision: nat,
    max: int,
    done: int,
)
    requires
        in_range(samples, max),
        0 < max <= 0xFFFF,
        chunk.fits(samples.len() as int, precision, max),
        0 <= done < chunk.weights.len(),
    ensures
        i64::MIN <= samples[chunk.start + done] * chunk.weights[done] <= i64::MAX,
        i64::MIN <= half_error(precision) + window_sum(samples, chunk.start, chunk.weights, done)
            <= i64::MAX,
        i64::MIN <= half_error(precision) + window_sum(
            samples,
            chunk.start,
            chunk.weights,
            done + 1,
        ) <= i64::MAX,
{
    lemma_chunk_headroom(samples, chunk, precision, max, done);
    lemma_chunk_headroom(samples, chunk, precision, max, done + 1);
    let s = samples[chunk.start + done];
    let w = chunk.weights[done];
    assert(0 <= s <= max);
    lemma_product_of_i32_fits(s, w);
}

/// One destination pixel of a horizontal pass: the window of `coeffs_chunk`
/// along the source row.
pub fn convolve_window<P: Pixel>(
    src_row: &[P],
    coeffs_chunk: &CoefficientsI32Chunk,
    normalizer_guard: &NormalizerGuard32,
) -> (pixel: P)
    requires
        normalizer_guard.wf(),
        coeffs_chunk@.fits(src_row@.len() as int, normalizer_guard@.precision, P::max_value()),
    ensures
        pixel.value() == convolved(
            samples(src_row@),
            coeffs_chunk@.start,
            coeffs_chunk@.weights,
            normalizer_guard@.precision,
            P::max_value(),
        ),
{
    let precision: u8 = normalizer_guard.precision();
    let initial: i64 = half_error_i64(precision);
    let first_x_src: usize = coeffs_chunk.start as usize;
    let ks: &[i32] = coeffs_chunk.values;
    let taps: usize = ks.len();
    let src_len: usize = src_row.len();
    let ghost chunk = coeffs_chunk@;
    let ghost along = samples(src_row@);
    proof {
        lemma_samples_in_range(src_row@);
        P::lemma_max_value_range();
    }
    let mut ss: i64 = initial;
    let mut k: usize = 0;
    while k < taps
        invariant
            k <= taps == ks@.len(),
            ks == coeffs_chunk.values,
            chunk == coeffs_chunk@,
            first_x_src == chunk.start,
            src_len == src_row@.len(),
            along == samples(src_row@),
            in_range(along, P::max_value()),
            0 < P::max_value() <= 0xFFFF,
            chunk.fits(src_len as int, precision as nat, P::max_value()),
            ss == half_error(precision as nat) + window_sum(
                along,
                chunk.start,
                chunk.weights,
                k as int,
            ),
        decreases taps - k,
    {
        proof {
            lemma_tap_step(along, chunk, precision as nat, P::max_value(), k as int);
        }
        let pixel: P = src_row[first_x_src + k];
        ss = ss + pixel.to_i64() * (ks[k] as i64);
        k += 1;
    }
    normalizer_guard.clip::<P>(ss)
}

/// One destination pixel of a vertical pass: the window of `coeffs_chunk`
/// down column `x` of the source.
pub fn convolve_column<P: Pixel>(
    src_image: &TypedImageView<P>,
    x: u32,
    coeffs_chunk: &CoefficientsI32Chunk,
    normalizer_guard: &NormalizerGuard32,
) -> (pixel: P)
    requires
        src_image.wf(),
        normalizer_guard.wf(),
        x < src_image.spec_width(),
        coeffs_chunk@.fits(
            src_image.spec_height() as int,
            normalizer_guard@.precision,
            P::max_value(),
        ),
    ensures
        pixel.value() == convolved(
            column(src_image@, x as int),
            coeffs_chunk@.start,
            coeffs_chunk@.weights,
            normalizer_guard@.precision,
            P::max_value(),
        ),
{
    let precision: u8 = normalizer_guard.precision();
    let initial: i64 = half_error_i64(precision);
    let first_y_src: u32 = coeffs_chunk.start;
    let ks: &[i32] = coeffs_chunk.values;
    let taps: usize = ks.len();
    let src_height: u32 = src_image.height();
    let ghost chunk = coeffs_chunk@;
    let ghost down = column(src_image@, x as int);
    proof {
        src_image.lemma_shape();
        lemma_column_in_range(src_image@, x as int);
        P::lemma_max_value_range();
    }
    let mut ss: i64 = initial;
    let mut k: u32 = 0;
    while (k as usize) < taps
        invariant
            k <= taps == ks@.len(),
            ks == coeffs_chunk.values,
            chunk == coeffs_chunk@,
            first_y_src == chunk.start,
            src_image.wf(),
            src_height == src_image.spec_height(),
            x < src_image.spec_width(),
            down == column(src_image@, x as int),
            down.len() == src_height,
            in_range(down, P::max_value()),
            0 < P::max_value() <= 0xFFFF,
            chunk.fits(src_height as int, precision as nat, P::max_value()),
            ss == half_error(precision as nat) + window_sum(
                down,
                chunk.start,
                chunk.weights,
                k as int,
            ),
        decreases taps - k,
    {
        proof {
            lemma_tap_step(down, chunk, precision as nat, P::max_value(), k as int);
        }
        let src_row: &[P] = src_image.get_row(first_y_src + k).unwrap();
        let pixel: P = src_row[x as usize];
        ss = ss + pixel.to_i64() * (ks[k as usize] as i64);
        k += 1;
    }
    normalizer_guard.clip::<P>(ss)
}

/// The horizontal pass, row by row and pixel by pixel.
pub fn horiz_convolution<P: Pixel>(
    src_image: TypedImageView<P>,
    mut dst_image: TypedImageViewMut<P>,
    offset: u32,
    coeffs: Coefficients,
) -> (r: Result<(), ContractViolation>)
    requires
        src_image.wf(),
        dst_image.wf(),
    ensures
        horiz_outcome(src_image, dst_image, offset, coeffs, final(dst_image.buffer())@, r),
{
    let normalizer_guard = match prepare_horiz(&src_image, &dst_image, offset, coeffs) {
        Ok(guard) => guard,
        Err(e) => {
            proof {
                dst_image.lemma_resolved();
            }
            return Err(e);
        },
    };
    let coefficients_chunks = normalizer_guard.normalized_chunks();
    let dst_height: u32 = dst_image.height();
    let dst_width: usize = dst_image.width() as usize;
    let src_height: u32 = src_image.height();
    let ghost entry = dst_image;
    let ghost width = dst_image.spec_width();
    let ghost height = dst_image.spec_height();
    let ghost normalized = normalizer_guard@;
    proof {
        src_image.lemma_shape();
        dst_image.lemma_buffer_len();
    }

    let mut y: u32 = 0;
    while y < dst_height
        invariant
            y <= dst_height == height,
            dst_width == width,
            offset + height <= src_height == src_image.spec_height(),
            src_image.wf(),
            dst_image.wf(),
            dst_image.spec_width() == width,
            dst_image.spec_height() == height,
            dst_image.buffer()@.len() == entry.buffer()@.len() == width * height,
            final(dst_image.buffer())@ == final(entry.buffer())@,
            normalized == normalizer_guard@,
            coefficients_chunks@.len() == width,
            chunks_ready::<P>(
                coefficients_chunks@,
                normalizer_guard,
                src_image.spec_width() as int,
            ),
            is_horiz_convolution(
                src_image@,
                rows_of(dst_image.buffer()@, width, height).take(y as int),
                offset as int,
                normalized,
            ),
        decreases dst_height - y,
    {
        let src_row: &[P] = src_image.get_row(y + offset).unwrap();
        let ghost before = dst_image.buffer()@;
        let dst_row: &mut [P] = dst_image.get_row_mut(y).unwrap();
        let ghost row = final(dst_row)@;
        let mut x: usize = 0;
        while x < dst_width
            invariant
                x <= dst_width == width,
                dst_row@.len() == width,
                final(dst_row)@ == row,
                src_row@ == src_image@[y + offset],
                src_row@.len() == src_image.spec_width(),
                normalized == normalizer_guard@,
                coefficients_chunks@.len() == width,
                chunks_ready::<P>(
                    coefficients_chunks@,
                    normalizer_guard,
                    src_image.spec_width() as int,
                ),
                forall|c: int|
                    0 <= c < x ==> (#[trigger] dst_row@[c]).value() == convolved(
                        samples(src_row@),
                        normalized.chunks[c].start,
                        normalized.chunks[c].weights,
                        normalized.precision,
                        normalized.max_value,
                    ),
            decreases dst_width - x,
        {
            dst_row[x] = convolve_window(src_row, &coefficients_chunks[x], &normalizer_guard);
            x += 1;
        }
        proof {
            lemma_horiz_row_done(
                src_image@,
                before,
                row,
                width,
                height,
                y as int,
                offset as int,
                normalized,
            );
        }
        y += 1;
    }
    proof {
        dst_image.lemma_resolved();
        assert(rows_of(dst_image.buffer()@, width, height).take(height as int) =~= rows_of(
            dst_image.buffer()@,
            width,
            height,
        ));
    }
    Ok(())
}

/// The vertical pass, row by row and pixel by pixel.
pub fn vert_convolution<P: Pixel>(
    src_image: TypedImageView<P>,
    mut dst_image: TypedImageViewMut<P>,
    coeffs: Coefficients,
) -> (r: Result<(), ContractViolation>)
    requires
        src_image.wf(),
        dst_image.wf(),
    ensures
        vert_outcome(src_image, dst_image, coeffs, final(dst_image.buffer())@, r),
{
    let normalizer_guard = match prepare_vert(&src_image, &dst_image, coeffs) {
        Ok(guard) => guard,
        Err(e) => {
            proof {
                dst_image.lemma_resolved();
            }
            return Err(e);
        },
    };
    let coefficients_chunks = normalizer_guard.normalized_chunks();
    let dst_height: u32 = dst_image.height();
    let dst_width: u32 = dst_image.width();
    let ghost entry = dst_image;
    let ghost width = dst_image.spec_width();
    let ghost height = dst_image.spec_height();
    let ghost normalized = normalizer_guard@;
    proof {
        dst_image.lemma_buffer_len();
    }

    let mut y: u32 = 0;
    while y < dst_height
        invariant
            y <= dst_height == height,
            dst_width == width == src_image.spec_width(),
            src_image.wf(),
            dst_image.wf(),
            dst_image.spec_width() == width,
            dst_image.spec_height() == height,
            dst_image.buffer()@.len() == entry.buffer()@.len() == width * height,
            final(dst_image.buffer())@ == final(entry.buffer())@,
            normalized == normalizer_guard@,
            coefficients_chunks@.len() == height,
            chunks_ready::<P>(
                coefficients_chunks@,
                normalizer_guard,
                src_image.spec_height() as int,
            ),
            is_vert_convolution(
                src_image@,
                rows_of(dst_image.buffer()@, width, height).take(y as int),
                width as int,
                normalized,
            ),
        decreases dst_height - y,
    {
        let coeffs_chunk: CoefficientsI32Chunk = coefficients_chunks[y as usize];
        let ghost before = dst_image.buffer()@;
        let dst_row: &mut [P] = dst_image.get_row_mut(y).unwrap();
        let ghost row = final(dst_row)@;
        let mut x: u32 = 0;
        while x < dst_width
            invariant
                x <= dst_width == width == src_image.spec_width(),
                dst_row@.len() == width,
                final(dst_row)@ == row,
                src_image.wf(),
                normalizer_guard.wf(),
                normalized == normalizer_guard@,
                normalized.max_value == P::max_value(),
                coeffs_chunk@ == normalized.chunks[y as int],
                coeffs_chunk@.fits(
                    src_image.spec_height() as int,
                    normalized.precision,
                    P::max_value(),
                ),
                forall|c: int|
                    0 <= c < x ==> (#[trigger] dst_row@[c]).value() == convolved(
                        column(src_image@, c),
                        normalized.chunks[y as int].start,
                        normalized.chunks[y as int].weights,
                        normalized.precision,
                        normalized.max_value,
                    ),
            decreases dst_width - x,
        {
            dst_row[x as usize] = convolve_column(&src_image, x, &coeffs_chunk, &normalizer_guard);
            x += 1;
        }
        proof {
            lemma_vert_row_done(src_image@, before, row, width, height, y as int, normalized);
        }
        y += 1;
    }
    proof {
        dst_image.lemma_resolved();
        assert(rows_of(dst_image.buffer()@, width, height).take(height as int) =~= rows_of(
            dst_image.buffer()@,
            width,
            height,
        ));
    }
    Ok(())
}

} // verus!
