//! Kernels scheduled for 256-bit registers.
//!
//! A window is consumed sixteen taps at a time, then eight, then four, then
//! a padded remainder, into four 64-bit accumulator lanes that are added up
//! only once the window is exhausted. The horizontal pass runs four rows per
//! batch, so that a group of weights is loaded once and used four times.
use super::lemmas::{
    in_range, lemma_chunk_headroom, lemma_column_in_range, lemma_group_step,
    lemma_horiz_row_done, lemma_horiz_rows_done, lemma_samples_in_range, lemma_vert_row_done,
    lemma_window_group,
};
use super::native::convolve_column;
use super::optimisations::{half_error_i64, ChunkView, CoefficientsI32Chunk, NormalizerGuard32};
use super::{
    chunks_ready, column, convolved, horiz_outcome, is_horiz_convolution, is_vert_convolution,
    magnitude, prepare_horiz, prepare_vert, vert_outcome, window_magnitude, window_sum,
    Coefficients, ContractViolation,
};
use crate::image_view::{
    lemma_rows_range, rows_of, FourRows, FourRowsMut, TypedImageView, TypedImageViewMut,
};
use crate::pixels::{samples, Pixel};
use crate::simd_utils::{
    add_epi64, ints, is_group_width, is_padded, is_step, is_weight_group, lanes_magnitude,
    lanes_total, load_lanes, load_taps, load_weights, madd_group, mul_epi32, next_group, padded,
    reduce_add, set1_epi64x,
};
use vstd::prelude::*;

verus! {

/// What the lanes hold after `consumed` taps of a window over `row`: together
/// the window's partial sum, and never more in magnitude than the products
/// consumed so far.
pub open spec fn lanes_hold(
    lanes: [i64; 4],
    row: Seq<int>,
    chunk: ChunkView,
    consumed: int,
) -> bool {
    &&& lanes_total(lanes) == window_sum(row, chunk.start, chunk.weights, consumed)
    &&& lanes_magnitude(lanes) <= window_magnitude(row, chunk.start, chunk.weights, consumed)
}

/// One register step over one row: the `width` samples from `x` on,
/// multiplied by the weights of the group `k` and added into the lanes.
pub fn accumulate<P: Pixel>(
    sum: [i64; 4],
    src_row: &[P],
    x: usize,
    k: &[i64; 16],
    width: usize,
) -> (r: [i64; 4])
    requires
        is_group_width(width as int),
        x + width <= src_row@.len(),
        is_weight_group(*k),
        is_padded(*k, width as int),
        lanes_magnitude(sum) + window_magnitude(samples(src_row@), x as int, ints(k@), width as int)
            <= i64::MAX,
    ensures
        is_step(r, sum, padded(samples(src_row@), x as int, width as int), ints(k@), width as int),
        lanes_total(r) == lanes_total(sum) + window_sum(
            samples(src_row@),
            x as int,
            ints(k@),
            width as int,
        ),
        lanes_magnitude(r) <= lanes_magnitude(sum) + window_magnitude(
            samples(src_row@),
            x as int,
            ints(k@),
            width as int,
        ),
{
    let source: [i64; 16] = load_taps(src_row, x, width);
    proof {
        lemma_window_group(
            samples(src_row@),
            x as int,
            ints(k@),
            0,
            width as int,
            ints(source@),
            ints(k@),
        );
        assert(ints(source@) =~= padded(samples(src_row@), x as int, width as int));
    }
    madd_group(sum, &source, k, width)
}

/// One register step over four rows: the group of weights `k` multiplied
/// into the accumulators of each row in turn.
pub fn accumulate_four_rows<P: Pixel>(
    ll_sum: [[i64; 4]; 4],
    src_rows: &FourRows<P>,
    x: usize,
    k: &[i64; 16],
    width: usize,
) -> (r: [[i64; 4]; 4])
    requires
        is_group_width(width as int),
        is_weight_group(*k),
        is_padded(*k, width as int),
        forall|i: int| 0 <= i < 4 ==> x + width <= (#[trigger] src_rows[i])@.len(),
        forall|i: int|
            0 <= i < 4 ==> lanes_magnitude(#[trigger] ll_sum[i]) + window_magnitude(
                samples(src_rows[i]@),
                x as int,
                ints(k@),
                width as int,
            ) <= i64::MAX,
    ensures
        forall|i: int|
            0 <= i < 4 ==> is_step(
                #[trigger] r[i],
                ll_sum[i],
                padded(samples(src_rows[i]@), x as int, width as int),
                ints(k@),
                width as int,
            ),
        forall|i: int|
            0 <= i < 4 ==> lanes_total(#[trigger] r[i]) == lanes_total(ll_sum[i]) + window_sum(
                samples(src_rows[i]@),
                x as int,
                ints(k@),
                width as int,
            ),
        forall|i: int|
            0 <= i < 4 ==> lanes_magnitude(#[trigger] r[i]) <= lanes_magnitude(ll_sum[i])
                + window_magnitude(samples(src_rows[i]@), x as int, ints(k@), width as int),
{
    let mut r: [[i64; 4]; 4] = ll_sum;
    let mut i: usize = 0;
    while i < 4
        invariant
            i <= 4,
            is_group_width(width as int),
            is_weight_group(*k),
            is_padded(*k, width as int),
            forall|j: int| 0 <= j < 4 ==> x + width <= (#[trigger] src_rows[j])@.len(),
            forall|j: int|
                0 <= j < 4 ==> lanes_magnitude(#[trigger] ll_sum[j]) + window_magnitude(
                    samples(src_rows[j]@),
                    x as int,
                    ints(k@),
                    width as int,
                ) <= i64::MAX,
            forall|j: int| i <= j < 4 ==> #[trigger] r[j] == ll_sum[j],
            forall|j: int|
                0 <= j < i ==> is_step(
                    #[trigger] r[j],
                    ll_sum[j],
                    padded(samples(src_rows[j]@), x as int, width as int),
                    ints(k@),
                    width as int,
                ),
            forall|j: int|
                0 <= j < i ==> lanes_total(#[trigger] r[j]) == lanes_total(ll_sum[j]) + window_sum(
                    samples(src_rows[j]@),
                    x as int,
                    ints(k@),
                    width as int,
                ),
            forall|j: int|
                0 <= j < i ==> lanes_magnitude(#[trigger] r[j]) <= lanes_magnitude(ll_sum[j])
                    + window_magnitude(samples(src_rows[j]@), x as int, ints(k@), width as int),
        decreases 4 - i,
    {
        assert(r[i as int] == ll_sum[i as int]);
        let sum: [i64; 4] = accumulate(r[i], src_rows[i], x, k, width);
        r[i] = sum;
        i += 1;
    }
    r
}

/// The horizontal pass: four rows per batch, then the rows that are left
/// one by one.
pub fn horiz_convolution<P: Pixel>(
    src_image: TypedImageView<P>,
    mut dst_image: TypedImageViewMut<P>,
    offset: u32,
    coeffs: Coefficients,
) -> (r: Result<(), ContractViolation>)
    requires
        src_image.wf(),
        dst_image.wf(),
    ensures
        horiz_outcome(src_image, dst_image, offset, coeffs, final(dst_image.buffer())@, r),
{
    let normalizer_guard = match prepare_horiz(&src_image, &dst_image, offset, coeffs) {
        Ok(guard) => guard,
        Err(e) => {
            proof {
                dst_image.lemma_resolved();
            }
            return Err(e);
        },
    };
    let coefficients_chunks = normalizer_guard.normalized_chunks();
    let dst_height: u32 = dst_image.height();
    let src_height: u32 = src_image.height();
    let ghost entry = dst_image;
    let ghost width = dst_image.spec_width();
    let ghost height = dst_image.spec_height();
    proof {
        src_image.lemma_shape();
        dst_image.lemma_buffer_len();
    }

    let mut yy: u32 = 0;
    while dst_height - yy >= 4
        invariant
            yy <= dst_height == height,
            offset + height <= src_height == src_image.spec_height(),
            src_image.wf(),
            dst_image.wf(),
            dst_image.spec_width() == width,
            dst_image.spec_height() == height,
            dst_image.buffer()@.len() == entry.buffer()@.len() == width * height,
            final(dst_image.buffer())@ == final(entry.buffer())@,
            coefficients_chunks@.len() == width,
            chunks_ready::<P>(
                coefficients_chunks@,
                normalizer_guard,
                src_image.spec_width() as int,
            ),
            is_horiz_convolution(
                src_image@,
                rows_of(dst_image.buffer()@, width, height).take(yy as int),
                offset as int,
                normalizer_guard@,
            ),
        decreases dst_height - yy,
    {
        let src_rows: FourRows<P> = src_image.four_rows(yy + offset).unwrap();
        let ghost before = dst_image.buffer()@;
        let dst_rows: FourRowsMut<P> = dst_image.four_rows_mut(yy).unwrap();
        let ghost block = final(dst_rows.buffer())@;
        horiz_convolution_four_rows(
            src_rows,
            dst_rows,
            coefficients_chunks.as_slice(),
            &normalizer_guard,
        );
        proof {
            lemma_rows_range(width, height, yy as int, 4);
            assert forall|i: int| 0 <= i < 4 implies (#[trigger] src_rows[i])@ == src_image@[yy
                + offset + i] by {}
            lemma_horiz_rows_done(
                src_image@,
                before,
                block,
                width,
                height,
                yy as int,
                4,
                offset as int,
                normalizer_guard@,
            );
        }
        yy += 4;
    }

    while yy < dst_height
        invariant
            yy <= dst_height == height,
            offset + height <= src_height == src_image.spec_height(),
            src_image.wf(),
            dst_image.wf(),
            dst_image.spec_width() == width,
            dst_image.spec_height() == height,
            dst_image.buffer()@.len() == entry.buffer()@.len() == width * height,
            final(dst_image.buffer())@ == final(entry.buffer())@,
            coefficients_chunks@.len() == width,
            chunks_ready::<P>(
                coefficients_chunks@,
                normalizer_guard,
                src_image.spec_width() as int,
            ),
            is_horiz_convolution(
                src_image@,
                rows_of(dst_image.buffer()@, width, height).take(yy as int),
                offset as int,
                normalizer_guard@,
            ),
        decreases dst_height - yy,
    {
        let src_row: &[P] = src_image.get_row(yy + offset).unwrap();
        let ghost before = dst_image.buffer()@;
        let dst_row: &mut [P] = dst_image.get_row_mut(yy).unwrap();
        let ghost row = final(dst_row)@;
        horiz_convolution_one_row(
            src_row,
            dst_row,
            coefficients_chunks.as_slice(),
            &normalizer_guard,
        );
        proof {
            lemma_horiz_row_done(
                src_image@,
                before,
                row,
                width,
                height,
                yy as int,
                offset as int,
                normalizer_guard@,
            );
        }
        yy += 1;
    }
    proof {
        dst_image.lemma_resolved();
        assert(rows_of(dst_image.buffer()@, width, height).take(height as int) =~= rows_of(
            dst_image.buffer()@,
            width,
            height,
        ));
    }
    Ok(())
}

/// Four neighbouring destination pixels of a vertical pass, one column per
/// lane: every source row of the window is loaded four samples wide and
/// multiplied by its weight, broadcast to all lanes.
pub fn convolve_four_columns<P: Pixel>(
    src_image: &TypedImageView<P>,
    x: u32,
    coeffs_chunk: &CoefficientsI32Chunk,
    normalizer_guard: &NormalizerGuard32,
) -> (pixels: [P; 4])
    requires
        src_image.wf(),
        normalizer_guard.wf(),
        x + 4 <= src_image.spec_width(),
        coeffs_chunk@.fits(
            src_image.spec_height() as int,
            normalizer_guard@.precision,
            P::max_value(),
        ),
    ensures
        forall|j: int|
            0 <= j < 4 ==> (#[trigger] pixels[j]).value() == convolved(
                column(src_image@, x + j),
                coeffs_chunk@.start,
                coeffs_chunk@.weights,
                normalizer_guard@.precision,
                P::max_value(),
            ),
{
    let precision: u8 = normalizer_guard.precision();
    let half_error: i64 = half_error_i64(precision);
    let first_y_src: u32 = coeffs_chunk.start;
    let ks: &[i32] = coeffs_chunk.values;
    let taps: usize = ks.len();
    let src_height: u32 = src_image.height();
    let ghost chunk = coeffs_chunk@;
    proof {
        src_image.lemma_shape();
        P::lemma_max_value_range();
        assert forall|j: int| 0 <= j < 4 implies in_range(
            #[trigger] column(src_image@, x + j),
            P::max_value(),
        ) by {
            lemma_column_in_range(src_image@, x + j);
        }
    }
    let mut sum: [i64; 4] = [0; 4];
    let mut k: u32 = 0;
    while (k as usize) < taps
        invariant
            k <= taps,
            taps == ks@.len(),
            ks == coeffs_chunk.values,
            chunk == coeffs_chunk@,
            first_y_src == chunk.start,
            src_image.wf(),
            src_height == src_image.spec_height(),
            src_image@.len() == src_height,
            x + 4 <= src_image.spec_width(),
            0 < P::max_value() <= 0xFFFF,
            chunk.fits(src_height as int, precision as nat, P::max_value()),
            half_error == super::half_error(precision as nat),
            forall|j: int|
                0 <= j < 4 ==> in_range(#[trigger] column(src_image@, x + j), P::max_value()),
            forall|j: int|
                0 <= j < 4 ==> #[trigger] sum[j] == window_sum(
                    column(src_image@, x + j),
                    chunk.start,
                    chunk.weights,
                    k as int,
                ),
        decreases taps - k,
    {
        let src_row: &[P] = src_image.get_row(first_y_src + k).unwrap();
        let source: [i64; 4] = load_lanes(src_row, x as usize);
        let weight: [i64; 4] = set1_epi64x(ks[k as usize] as i64);
        let product: [i64; 4] = mul_epi32(source, weight);
        proof {
            assert forall|j: int| 0 <= j < 4 implies i64::MIN <= #[trigger] sum[j] + product[j]
                <= i64::MAX && sum[j] + product[j] == window_sum(
                column(src_image@, x + j),
                chunk.start,
                chunk.weights,
                k + 1,
            ) by {
                let down = column(src_image@, x + j);
                assert(in_range(down, P::max_value()));
                lemma_chunk_headroom(down, chunk, precision as nat, P::max_value(), k + 1);
                assert(source[j] == down[chunk.start + k]);
            }
        }
        sum = add_epi64(sum, product);
        k += 1;
    }
    proof {
        assert forall|j: int| 0 <= j < 4 implies i64::MIN <= #[trigger] sum[j] + half_error
            <= i64::MAX by {
            let down = column(src_image@, x + j);
            assert(in_range(down, P::max_value()));
            lemma_chunk_headroom(down, chunk, precision as nat, P::max_value(), taps as int);
        }
    }
    [
        normalizer_guard.clip::<P>(sum[0] + half_error),
        normalizer_guard.clip::<P>(sum[1] + half_error),
        normalizer_guard.clip::<P>(sum[2] + half_error),
        normalizer_guard.clip::<P>(sum[3] + half_error),
    ]
}

/// The vertical pass: four columns per register step, then the columns that
/// are left one by one.
pub fn vert_convolution<P: Pixel>(
    src_image: TypedImageView<P>,
    mut dst_image: TypedImageViewMut<P>,
    coeffs: Coefficients,
) -> (r: Result<(), ContractViolation>)
    requires
        src_image.wf(),
        dst_image.wf(),
    ensures
        vert_outcome(src_image, dst_image, coeffs, final(dst_image.buffer())@, r),
{
    let normalizer_guard = match prepare_vert(&src_image, &dst_image, coeffs) {
        Ok(guard) => guard,
        Err(e) => {
            proof {
                dst_image.lemma_resolved();
            }
            return Err(e);
        },
    };
    let coefficients_chunks = normalizer_guard.normalized_chunks();
    let dst_height: u32 = dst_image.height();
    let dst_width: u32 = dst_image.width();
    let ghost entry = dst_image;
    let ghost width = dst_image.spec_width();
    let ghost height = dst_image.spec_height();
    let ghost normalized = normalizer_guard@;
    proof {
        dst_image.lemma_buffer_len();
    }

    let mut y: u32 = 0;
    while y < dst_height
        invariant
            y <= dst_height == height,
            dst_width == width == src_image.spec_width(),
            src_image.wf(),
            dst_image.wf(),
            dst_image.spec_width() == width,
            dst_image.spec_height() == height,
            dst_image.buffer()@.len() == entry.buffer()@.len() == width * height,
            final(dst_image.buffer())@ == final(entry.buffer())@,
            normalized == normalizer_guard@,
            coefficients_chunks@.len() == height,
            chunks_ready::<P>(
                coefficients_chunks@,
                normalizer_guard,
                src_image.spec_height() as int,
            ),
            is_vert_convolution(
                src_image@,
                rows_of(dst_image.buffer()@, width, height).take(y as int),
                width as int,
                normalized,
            ),
        decreases dst_height - y,
    {
        let coeffs_chunk: CoefficientsI32Chunk = coefficients_chunks[y as usize];
        let ghost before = dst_image.buffer()@;
        let dst_row: &mut [P] = dst_image.get_row_mut(y).unwrap();
        let ghost row = final(dst_row)@;
        let mut x: u32 = 0;
        while dst_width - x >= 4
            invariant
                x <= dst_width == width == src_image.spec_width(),
                dst_row@.len() == width,
                final(dst_row)@ == row,
                src_image.wf(),
                normalizer_guard.wf(),
                normalized == normalizer_guard@,
                normalized.max_value == P::max_value(),
                coeffs_chunk@ == normalized.chunks[y as int],
                coeffs_chunk@.fits(
                    src_image.spec_height() as int,
                    normalized.precision,
                    P::max_value(),
                ),
                forall|c: int|
                    0 <= c < x ==> (#[trigger] dst_row@[c]).value() == convolved(
                        column(src_image@, c),
                        normalized.chunks[y as int].start,
                        normalized.chunks[y as int].weights,
                        normalized.precision,
                        normalized.max_value,
                    ),
            decreases dst_width - x,
        {
            let pixels: [P; 4] = convolve_four_columns(
                &src_image,
                x,
                &coeffs_chunk,
                &normalizer_guard,
            );
            let at: usize = x as usize;
            dst_row[at] = pixels[0];
            dst_row[at + 1] = pixels[1];
            dst_row[at + 2] = pixels[2];
            dst_row[at + 3] = pixels[3];
            x += 4;
        }
        while x < dst_width
            invariant
                x <= dst_width == width == src_image.spec_width(),
                dst_row@.len() == width,
                final(dst_row)@ == row,
                src_image.wf(),
                normalizer_guard.wf(),
                normalized == normalizer_guard@,
                normalized.max_value == P::max_value(),
                coeffs_chunk@ == normalized.chunks[y as int],
                coeffs_chunk@.fits(
                    src_image.spec_height() as int,
                    normalized.precision,
                    P::max_value(),
                ),
                forall|c: int|
                    0 <= c < x ==> (#[trigger] dst_row@[c]).value() == convolved(
                        column(src_image@, c),
                        normalized.chunks[y as int].start,
                        normalized.chunks[y as int].weights,
                        normalized.precision,
                        normalized.max_value,
                    ),
            decreases dst_width - x,
        {
            dst_row[x as usize] = convolve_column(&src_image, x, &coeffs_chunk, &normalizer_guard);
            x += 1;
        }
        proof {
            lemma_vert_row_done(src_image@, before, row, width, height, y as int, normalized);
        }
        y += 1;
    }
    proof {
        dst_image.lemma_resolved();
        assert(rows_of(dst_image.buffer()@, width, height).take(height as int) =~= rows_of(
            dst_image.buffer()@,
            width,
            height,
        ));
    }
    Ok(())
}

/// What the accumulators of four rows hold after `consumed` taps of a
/// window: each the partial sum of the window over its own row.
pub open spec fn rows_hold<P: Pixel>(
    ll_sum: [[i64; 4]; 4],
    src_rows: FourRows<P>,
    chunk: ChunkView,
    consumed: int,
) -> bool {
    forall|i: int|
        0 <= i < 4 ==> lanes_hold(#[trigger] ll_sum[i], samples(src_rows[i]@), chunk, consumed)
}

/// Four rows of a horizontal pass at once.
///
/// Every destination pixel of row `i` is the convolved sample of its chunk
/// over source row `i`. Each group of weights is loaded once and multiplied
/// into the accumulators of all four rows.
pub fn horiz_convolution_four_rows<P: Pixel>(
    src_rows: FourRows<P>,
    mut dst_rows: FourRowsMut<P>,
    coefficients_chunks: &[CoefficientsI32Chunk],
    normalizer_guard: &NormalizerGuard32,
)
    requires
        normalizer_guard.wf(),
        dst_rows.wf(),
        coefficients_chunks@.len() == dst_rows.spec_width(),
        forall|i: int| 0 <= i < 4 ==> (#[trigger] src_rows[i])@.len() == src_rows[0]@.len(),
        forall|x: int|
            0 <= x < coefficients_chunks@.len() ==> (#[trigger] coefficients_chunks@[x])@.fits(
                src_rows[0]@.len() as int,
                normalizer_guard@.precision,
                P::max_value(),
            ),
    ensures
        final(dst_rows.buffer())@.len() == dst_rows.buffer()@.len(),
        forall|i: int, x: int|
            0 <= i < 4 && 0 <= x < dst_rows.spec_width() ==> (#[trigger] rows_of(
                final(dst_rows.buffer())@,
                dst_rows.spec_width(),
                4,
            )[i][x]).value() == convolved(
                samples(src_rows[i]@),
                coefficients_chunks@[x]@.start,
                coefficients_chunks@[x]@.weights,
                normalizer_guard@.precision,
                P::max_value(),
            ),
{
    let precision: u8 = normalizer_guard.precision();
    let half_error: i64 = half_error_i64(precision);
    let count: usize = coefficients_chunks.len();
    let src_len: usize = src_rows[0].len();
    let ghost entry = dst_rows;
    proof {
        dst_rows.lemma_rows();
        assert forall|i: int| 0 <= i < 4 implies in_range(
            #[trigger] samples(src_rows[i]@),
            P::max_value(),
        ) && samples(src_rows[i]@).len() == src_len by {
            lemma_samples_in_range(src_rows[i]@);
        }
    }

    let mut dst_x: usize = 0;
    while dst_x < count
        invariant
            dst_x <= count == coefficients_chunks@.len(),
            dst_rows.wf(),
            dst_rows.spec_width() == count,
            dst_rows.buffer()@.len() == entry.buffer()@.len(),
            final(dst_rows.buffer())@ == final(entry.buffer())@,
            normalizer_guard.wf(),
            precision == normalizer_guard@.precision,
            half_error == super::half_error(precision as nat),
            forall|i: int|
                0 <= i < 4 ==> in_range(#[trigger] samples(src_rows[i]@), P::max_value())
                    && samples(src_rows[i]@).len() == src_len,
            forall|i: int| 0 <= i < 4 ==> (#[trigger] src_rows[i])@.len() == src_len,
            forall|x: int|
                0 <= x < count ==> (#[trigger] coefficients_chunks@[x])@.fits(
                    src_len as int,
                    precision as nat,
                    P::max_value(),
                ),
            forall|i: int, x: int|
                0 <= i < 4 && 0 <= x < dst_x ==> (#[trigger] dst_rows.rows()[i][x]).value()
                    == convolved(
                    samples(src_rows[i]@),
                    coefficients_chunks@[x]@.start,
                    coefficients_chunks@[x]@.weights,
                    precision as nat,
                    P::max_value(),
                ),
        decreases count - dst_x,
    {
        let coeffs_chunk: CoefficientsI32Chunk = coefficients_chunks[dst_x];
        let ghost chunk = coeffs_chunk@;
        let coeffs: &[i32] = coeffs_chunk.values;
        let taps: usize = coeffs.len();
        let mut x: usize = coeffs_chunk.start as usize;
        let mut ll_sum: [[i64; 4]; 4] = [[0; 4]; 4];
        let mut done: usize = 0;
        proof {
            assert(chunk.fits(src_len as int, precision as nat, P::max_value()));
            reveal(lanes_magnitude);
            reveal(magnitude);
        }

        while done < taps
            invariant
                done <= taps == coeffs@.len(),
                x == chunk.start + done,
                chunk == coeffs_chunk@,
                coeffs == coeffs_chunk.values,
                forall|i: int|
                    0 <= i < 4 ==> in_range(#[trigger] samples(src_rows[i]@), P::max_value())
                        && samples(src_rows[i]@).len() == src_len,
                forall|i: int| 0 <= i < 4 ==> (#[trigger] src_rows[i])@.len() == src_len,
                chunk.fits(src_len as int, precision as nat, P::max_value()),
                rows_hold(ll_sum, src_rows, chunk, done as int),
            decreases taps - done,
        {
            let width: usize = next_group(taps - done);
            let k: [i64; 16] = load_weights(coeffs, done, width);
            proof {
                assert forall|i: int| 0 <= i < 4 implies lanes_magnitude(#[trigger] ll_sum[i])
                    + window_magnitude(samples(src_rows[i]@), x as int, ints(k@), width as int)
                    <= i64::MAX by {
                    lemma_group_step(
                        samples(src_rows[i]@),
                        chunk,
                        precision as nat,
                        P::max_value(),
                        done as int,
                        width as int,
                        ints(k@),
                    );
                }
            }
            let ghost before = ll_sum;
            ll_sum = accumulate_four_rows(ll_sum, &src_rows, x, &k, width);
            proof {
                assert forall|i: int| 0 <= i < 4 implies lanes_hold(
                    #[trigger] ll_sum[i],
                    samples(src_rows[i]@),
                    chunk,
                    done + width,
                ) by {
                    assert(lanes_hold(before[i], samples(src_rows[i]@), chunk, done as int));
                    lemma_group_step(
                        samples(src_rows[i]@),
                        chunk,
                        precision as nat,
                        P::max_value(),
                        done as int,
                        width as int,
                        ints(k@),
                    );
                }
            }
            x += width;
            done += width;
        }

        let mut i: usize = 0;
        while i < 4
            invariant
                i <= 4,
                dst_x < count == coefficients_chunks@.len(),
                dst_rows.wf(),
                dst_rows.spec_width() == count,
                dst_rows.buffer()@.len() == entry.buffer()@.len(),
                final(dst_rows.buffer())@ == final(entry.buffer())@,
                normalizer_guard.wf(),
                precision == normalizer_guard@.precision,
                half_error == super::half_error(precision as nat),
                chunk == coefficients_chunks@[dst_x as int]@,
                taps == chunk.weights.len(),
                forall|j: int|
                    0 <= j < 4 ==> in_range(#[trigger] samples(src_rows[j]@), P::max_value())
                        && samples(src_rows[j]@).len() == src_len,
                chunk.fits(src_len as int, precision as nat, P::max_value()),
                rows_hold(ll_sum, src_rows, chunk, taps as int),
                forall|r: int, c: int|
                    0 <= r < 4 && 0 <= c < dst_x ==> (#[trigger] dst_rows.rows()[r][c]).value()
                        == convolved(
                        samples(src_rows[r]@),
                        coefficients_chunks@[c]@.start,
                        coefficients_chunks@[c]@.weights,
                        precision as nat,
                        P::max_value(),
                    ),
                forall|r: int|
                    0 <= r < i ==> (#[trigger] dst_rows.rows()[r][dst_x as int]).value()
                        == convolved(
                        samples(src_rows[r]@),
                        chunk.start,
                        chunk.weights,
                        precision as nat,
                        P::max_value(),
                    ),
            decreases 4 - i,
        {
            proof {
                assert(lanes_hold(
                    ll_sum[i as int],
                    samples(src_rows[i as int]@),
                    chunk,
                    taps as int,
                ));
                lemma_chunk_headroom(
                    samples(src_rows[i as int]@),
                    chunk,
                    precision as nat,
                    P::max_value(),
                    taps as int,
                );
                dst_rows.lemma_rows();
            }
            let total: i64 = reduce_add(ll_sum[i]);
            let pixel: P = normalizer_guard.clip::<P>(total + half_error);
            dst_rows.set(i, dst_x, pixel);
            proof {
                dst_rows.lemma_rows();
            }
            i += 1;
        }
        dst_x += 1;
    }
    proof {
        dst_rows.lemma_rows();
        dst_rows.lemma_resolved();
    }
}

/// One row of a horizontal pass.
///
/// Every destination pixel is the convolved sample of its chunk over the
/// source row.
pub fn horiz_convolution_one_row<P: Pixel>(
    src_row: &[P],
    dst_row: &mut [P],
    coefficients_chunks: &[CoefficientsI32Chunk],
    normalizer_guard: &NormalizerGuard32,
)
    requires
        normalizer_guard.wf(),
        coefficients_chunks@.len() == old(dst_row)@.len(),
        forall|x: int|
            0 <= x < coefficients_chunks@.len() ==> (#[trigger] coefficients_chunks@[x])@.fits(
                src_row@.len() as int,
                normalizer_guard@.precision,
                P::max_value(),
            ),
    ensures
        final(dst_row)@.len() == old(dst_row)@.len(),
        forall|x: int|
            0 <= x < final(dst_row)@.len() ==> (#[trigger] final(dst_row)@[x]).value() == convolved(
                samples(src_row@),
                coefficients_chunks@[x]@.start,
                coefficients_chunks@[x]@.weights,
                normalizer_guard@.precision,
                P::max_value(),
            ),
{
    let precision: u8 = normalizer_guard.precision();
    let half_error: i64 = half_error_i64(precision);
    let count: usize = coefficients_chunks.len();
    let src_len: usize = src_row.len();
    let ghost row = samples(src_row@);
    proof {
        lemma_samples_in_range(src_row@);
    }

    let mut dst_x: usize = 0;
    while dst_x < count
        invariant
            dst_x <= count == coefficients_chunks@.len(),
            dst_row@.len() == count,
            normalizer_guard.wf(),
            precision == normalizer_guard@.precision,
            half_error == super::half_error(precision as nat),
            src_len == src_row@.len(),
            row == samples(src_row@),
            in_range(row, P::max_value()),
            forall|x: int|
                0 <= x < count ==> (#[trigger] coefficients_chunks@[x])@.fits(
                    src_len as int,
                    precision as nat,
                    P::max_value(),
                ),
            forall|x: int|
                0 <= x < dst_x ==> (#[trigger] dst_row@[x]).value() == convolved(
                    row,
                    coefficients_chunks@[x]@.start,
                    coefficients_chunks@[x]@.weights,
                    precision as nat,
                    P::max_value(),
                ),
        decreases count - dst_x,
    {
        let coeffs_chunk: CoefficientsI32Chunk = coefficients_chunks[dst_x];
        let ghost chunk = coeffs_chunk@;
        let coeffs: &[i32] = coeffs_chunk.values;
        let taps: usize = coeffs.len();
        let mut x: usize = coeffs_chunk.start as usize;
        let mut ll_sum: [i64; 4] = [0; 4];
        let mut done: usize = 0;
        proof {
            assert(chunk.fits(src_len as int, precision as nat, P::max_value()));
            reveal(lanes_magnitude);
            reveal(magnitude);
        }

        while done < taps
            invariant
                done <= taps == coeffs@.len(),
                x == chunk.start + done,
                chunk == coeffs_chunk@,
                coeffs == coeffs_chunk.values,
                src_len == src_row@.len(),
                row == samples(src_row@),
                in_range(row, P::max_value()),
                chunk.fits(src_len as int, precision as nat, P::max_value()),
                lanes_hold(ll_sum, row, chunk, done as int),
            decreases taps - done,
        {
            let width: usize = next_group(taps - done);
            let k: [i64; 16] = load_weights(coeffs, done, width);
            proof {
                lemma_group_step(
                    row,
                    chunk,
                    precision as nat,
                    P::max_value(),
                    done as int,
                    width as int,
                    ints(k@),
                );
            }
            ll_sum = accumulate(ll_sum, src_row, x, &k, width);
            x += width;
            done += width;
        }
        proof {
            lemma_chunk_headroom(row, chunk, precision as nat, P::max_value(), taps as int);
        }
        let total: i64 = reduce_add(ll_sum);
        dst_row[dst_x] = normalizer_guard.clip::<P>(total + half_error);
        dst_x += 1;
    }
}

} // verus!
