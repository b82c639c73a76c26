use resize_convolution::convolution::builder::precompute_coefficients;
use resize_convolution::convolution::filters::{
    bilinear_filter, box_filter, BILINEAR_SUPPORT, BOX_SUPPORT,
};
use resize_convolution::convolution::optimisations::NormalizerGuard32;
use resize_convolution::convolution::{avx2, native, Bound, Coefficients, Convolution, WEIGHT_ONE};
use resize_convolution::image_view::{TypedImageView, TypedImageViewMut};
use resize_convolution::pixels::{Pixel, U16, U8};
use resize_convolution::{CpuExtensions, Kernel};

fn next(state: &mut u64) -> u64 {
    *state = state.wrapping_mul(6364136223846793005).wrapping_add(1442695040888963407);
    *state >> 33
}

fn noise_u8(len: usize, seed: u64) -> Vec<U8> {
    let mut state = seed;
    (0..len).map(|_| U8(next(&mut state) as u8)).collect()
}

fn noise_u16(len: usize, seed: u64) -> Vec<U16> {
    let mut state = seed;
    (0..len).map(|_| U16(next(&mut state) as u16)).collect()
}

/// Windows of `taps` weights each, sliding over a source of `source` samples,
/// signed and not symmetric, adding up to one.
fn sliding(count: u32, taps: u32, source: u32, seed: u64) -> Coefficients {
    let mut state = seed;
    let mut values = Vec::new();
    let mut bounds = Vec::new();
    for i in 0..count {
        let start = if source > taps { (i * 7) % (source - taps + 1) } else { 0 };
        let mut rest = WEIGHT_ONE;
        for k in 0..taps {
            let w = if k + 1 == taps {
                rest
            } else {
                ((next(&mut state) << 18) as i64 % (WEIGHT_ONE / 16)) - WEIGHT_ONE / 64
            };
            rest -= w;
            values.push(w);
        }
        bounds.push(Bound { start, size: taps });
    }
    Coefficients { values, window_size: taps as usize, bounds }
}

/// The output the definition of a pass gives, computed in wide arithmetic.
fn expected<P: Pixel>(
    samples: &[i128],
    start: usize,
    weights: &[i32],
    precision: u8,
) -> i128 {
    let max = P::max_i64() as i128;
    let mut sum: i128 = 1 << (precision - 1);
    for (k, w) in weights.iter().enumerate() {
        sum += samples[start + k] * (*w as i128);
    }
    let q = sum.div_euclid(1 << precision);
    q.clamp(0, max)
}

fn check_horiz_u8(width: u32, height: u32, dst_width: u32, taps: u32, offset: u32, seed: u64) {
    let src = noise_u8((width * (height + offset)) as usize, seed);
    let coeffs = sliding(dst_width, taps, width, seed ^ 0x55);
    let guard = NormalizerGuard32::new::<U8>(coeffs.clone()).unwrap();
    let chunks = guard.normalized_chunks();
    let src_view = TypedImageView::new(width, height + offset, &src).unwrap();

    let mut a = vec![U8(0); (dst_width * height) as usize];
    let mut b = vec![U8(1); (dst_width * height) as usize];
    let view_a = TypedImageViewMut::new(dst_width, height, &mut a).unwrap();
    let view_b = TypedImageViewMut::new(dst_width, height, &mut b).unwrap();
    assert_eq!(native::horiz_convolution(src_view, view_a, offset, coeffs.clone()), Ok(()));
    assert_eq!(avx2::horiz_convolution(src_view, view_b, offset, coeffs.clone()), Ok(()));
    assert_eq!(a, b);

    for y in 0..height as usize {
        let row: Vec<i128> = src[(y + offset as usize) * width as usize..][..width as usize]
            .iter()
            .map(|p| p.0 as i128)
            .collect();
        for x in 0..dst_width as usize {
            let want = expected::<U8>(
                &row,
                chunks[x].start as usize,
                chunks[x].values,
                guard.precision(),
            );
            assert_eq!(a[y * dst_width as usize + x].0 as i128, want);
        }
    }
}

fn check_horiz_u16(width: u32, height: u32, dst_width: u32, taps: u32, seed: u64) {
    let src = noise_u16((width * height) as usize, seed);
    let coeffs = sliding(dst_width, taps, width, seed ^ 0xAA);
    let guard = NormalizerGuard32::new::<U16>(coeffs.clone()).unwrap();
    let chunks = guard.normalized_chunks();
    let src_view = TypedImageView::new(width, height, &src).unwrap();

    let mut a = vec![U16(0); (dst_width * height) as usize];
    let mut b = vec![U16(1); (dst_width * height) as usize];
    let view_a = TypedImageViewMut::new(dst_width, height, &mut a).unwrap();
    let view_b = TypedImageViewMut::new(dst_width, height, &mut b).unwrap();
    assert_eq!(
        U16::horiz_convolution(src_view, view_a, 0, coeffs.clone(), CpuExtensions::Native),
        Ok(())
    );
    assert_eq!(
        U16::horiz_convolution(src_view, view_b, 0, coeffs.clone(), CpuExtensions::Avx2),
        Ok(())
    );
    assert_eq!(a, b);

    for y in 0..height as usize {
        let row: Vec<i128> =
            src[y * width as usize..][..width as usize].iter().map(|p| p.0 as i128).collect();
        for x in 0..dst_width as usize {
            let want = expected::<U16>(
                &row,
                chunks[x].start as usize,
                chunks[x].values,
                guard.precision(),
            );
            assert_eq!(a[y * dst_width as usize + x].0 as i128, want);
        }
    }
}

fn check_vert_u16(width: u32, height: u32, dst_height: u32, taps: u32, seed: u64) {
    let src = noise_u16((width * height) as usize, seed);
    let coeffs = sliding(dst_height, taps, height, seed ^ 0x33);
    let guard = NormalizerGuard32::new::<U16>(coeffs.clone()).unwrap();
    let chunks = guard.normalized_chunks();
    let src_view = TypedImageView::new(width, height, &src).unwrap();

    let mut a = vec![U16(0); (width * dst_height) as usize];
    let mut b = vec![U16(1); (width * dst_height) as usize];
    let view_a = TypedImageViewMut::new(width, dst_height, &mut a).unwrap();
    let view_b = TypedImageViewMut::new(width, dst_height, &mut b).unwrap();
    assert_eq!(
        U16::vert_convolution(src_view, view_a, coeffs.clone(), CpuExtensions::Native),
        Ok(())
    );
    assert_eq!(
        U16::vert_convolution(src_view, view_b, coeffs.clone(), CpuExtensions::Avx2),
        Ok(())
    );
    assert_eq!(a, b);

    for x in 0..width as usize {
        let column: Vec<i128> =
            (0..height as usize).map(|y| src[y * width as usize + x].0 as i128).collect();
        for y in 0..dst_height as usize {
            let want = expected::<U16>(
                &column,
                chunks[y].start as usize,
                chunks[y].values,
                guard.precision(),
            );
            assert_eq!(a[y * width as usize + x].0 as i128, want);
        }
    }
}

#[test]
fn backends_agree_on_windows_of_every_group_width() {
    // One to three taps, four, eight, sixteen, and every mix of groups up to 40.
    for taps in 1..=40 {
        check_horiz_u8(48, 5, 9, taps, 0, 1000 + taps as u64);
        check_horiz_u16(48, 5, 9, taps, 2000 + taps as u64);
    }
}

#[test]
fn backends_agree_on_every_count_of_rows() {
    // Batches of four rows and every remainder.
    for height in 1..=9 {
        check_horiz_u8(21, height, 6, 19, 0, 3000 + height as u64);
        check_horiz_u16(21, height, 6, 5, 4000 + height as u64);
    }
}

#[test]
fn backends_agree_below_a_row_offset() {
    for offset in 0..=5 {
        check_horiz_u8(17, 6, 4, 7, offset, 5000 + offset as u64);
    }
}

#[test]
fn backends_agree_on_vertical_passes() {
    // Four columns per step and every remainder; windows of every length up to 20.
    for width in 1..=9 {
        for taps in [1, 2, 3, 4, 7, 16, 20] {
            check_vert_u16(width, 24, 5, taps, 6000 + (width * 31 + taps) as u64);
        }
    }
}

#[test]
fn backends_agree_on_vertical_passes_of_eight_bit_samples() {
    let src = noise_u8(6 * 10, 77);
    let coeffs = precompute_coefficients(10, 4, bilinear_filter, BILINEAR_SUPPORT).unwrap();
    let src_view = TypedImageView::new(6, 10, &src).unwrap();
    let mut a = vec![U8(0); 6 * 4];
    let mut b = vec![U8(9); 6 * 4];
    let view_a = TypedImageViewMut::new(6, 4, &mut a).unwrap();
    let view_b = TypedImageViewMut::new(6, 4, &mut b).unwrap();
    assert_eq!(native::vert_convolution(src_view, view_a, coeffs.clone()), Ok(()));
    assert_eq!(avx2::vert_convolution(src_view, view_b, coeffs), Ok(()));
    assert_eq!(a, b);
}

#[test]
fn a_tier_without_kernels_of_its_own_runs_on_the_scalar_kernel() {
    assert_eq!(CpuExtensions::Native.kernel(), Kernel::Scalar);
    assert_eq!(CpuExtensions::Sse4_1.kernel(), Kernel::Scalar);
    assert_eq!(CpuExtensions::Avx2.kernel(), Kernel::Lanes);
}

#[test]
fn every_tier_gives_the_same_pixels() {
    let src = noise_u8(64 * 7, 4242);
    let mut outputs = Vec::new();
    for cpu in [CpuExtensions::Native, CpuExtensions::Sse4_1, CpuExtensions::Avx2] {
        let coeffs = precompute_coefficients(64, 13, bilinear_filter, BILINEAR_SUPPORT).unwrap();
        let src_view = TypedImageView::new(64, 7, &src).unwrap();
        let mut dst = vec![U8(0); 13 * 7];
        let dst_view = TypedImageViewMut::new(13, 7, &mut dst).unwrap();
        assert_eq!(U8::horiz_convolution(src_view, dst_view, 0, coeffs, cpu), Ok(()));
        outputs.push(dst);
    }
    assert_eq!(outputs[0], outputs[1]);
    assert_eq!(outputs[0], outputs[2]);
}

#[test]
fn a_pass_is_repeatable() {
    let src = noise_u16(40 * 3, 9);
    let mut first = vec![U16(0); 11 * 3];
    let mut second = vec![U16(0); 11 * 3];
    for dst in [&mut first, &mut second] {
        let coeffs = precompute_coefficients(40, 11, box_filter, BOX_SUPPORT).unwrap();
        let src_view = TypedImageView::new(40, 3, &src).unwrap();
        let dst_view = TypedImageViewMut::new(11, 3, dst).unwrap();
        assert_eq!(avx2::horiz_convolution(src_view, dst_view, 0, coeffs), Ok(()));
    }
    assert_eq!(first, second);
}

#[test]
fn identity_filter_copies_the_source() {
    let src = noise_u8(9 * 6, 31);
    let coeffs = Coefficients {
        values: vec![WEIGHT_ONE; 9],
        window_size: 1,
        bounds: (0..9).map(|x| Bound { start: x, size: 1 }).collect(),
    };
    for cpu in [CpuExtensions::Native, CpuExtensions::Avx2] {
        let mut dst = vec![U8(0); 9 * 6];
        let src_view = TypedImageView::new(9, 6, &src).unwrap();
        let dst_view = TypedImageViewMut::new(9, 6, &mut dst).unwrap();
        assert_eq!(U8::horiz_convolution(src_view, dst_view, 0, coeffs.clone(), cpu), Ok(()));
        assert_eq!(dst, src);
    }
}

#[test]
fn identity_filter_copies_the_source_down_the_columns() {
    let src = noise_u16(5 * 7, 32);
    let coeffs = Coefficients {
        values: vec![WEIGHT_ONE; 7],
        window_size: 1,
        bounds: (0..7).map(|y| Bound { start: y, size: 1 }).collect(),
    };
    for cpu in [CpuExtensions::Native, CpuExtensions::Avx2] {
        let mut dst = vec![U16(0); 5 * 7];
        let src_view = TypedImageView::new(5, 7, &src).unwrap();
        let dst_view = TypedImageViewMut::new(5, 7, &mut dst).unwrap();
        assert_eq!(U16::vert_convolution(src_view, dst_view, coeffs.clone(), cpu), Ok(()));
        assert_eq!(dst, src);
    }
}

#[test]
fn box_filter_to_the_same_size_is_a_no_op() {
    let src = noise_u8(12 * 2, 33);
    let coeffs = precompute_coefficients(12, 12, box_filter, BOX_SUPPORT).unwrap();
    assert_eq!(coeffs.window_size, 1);
    let mut dst = vec![U8(0); 12 * 2];
    let src_view = TypedImageView::new(12, 2, &src).unwrap();
    let dst_view = TypedImageViewMut::new(12, 2, &mut dst).unwrap();
    assert_eq!(avx2::horiz_convolution(src_view, dst_view, 0, coeffs), Ok(()));
    assert_eq!(dst, src);
}

#[test]
fn sums_above_the_range_saturate_to_the_largest_sample() {
    // Weights 1.5 and 0.5 on full samples: twice the largest sample.
    let coeffs = Coefficients {
        values: vec![WEIGHT_ONE + WEIGHT_ONE / 2, WEIGHT_ONE / 2],
        window_size: 2,
        bounds: vec![Bound { start: 0, size: 2 }],
    };
    for cpu in [CpuExtensions::Native, CpuExtensions::Avx2] {
        let src8 = [U8(255), U8(255)];
        let mut dst8 = [U8(0)];
        let src_view = TypedImageView::new(2, 1, &src8).unwrap();
        let dst_view = TypedImageViewMut::new(1, 1, &mut dst8).unwrap();
        assert_eq!(U8::horiz_convolution(src_view, dst_view, 0, coeffs.clone(), cpu), Ok(()));
        assert_eq!(dst8, [U8(255)]);

        let src16 = [U16(65535), U16(65535)];
        let mut dst16 = [U16(0)];
        let src_view = TypedImageView::new(2, 1, &src16).unwrap();
        let dst_view = TypedImageViewMut::new(1, 1, &mut dst16).unwrap();
        assert_eq!(U16::horiz_convolution(src_view, dst_view, 0, coeffs.clone(), cpu), Ok(()));
        assert_eq!(dst16, [U16(65535)]);
    }
}

#[test]
fn sums_below_the_range_saturate_to_zero() {
    // Weights -1 and 1 on a full and an empty sample: minus the largest sample.
    let coeffs = Coefficients {
        values: vec![-WEIGHT_ONE, WEIGHT_ONE],
        window_size: 2,
        bounds: vec![Bound { start: 0, size: 2 }],
    };
    for cpu in [CpuExtensions::Native, CpuExtensions::Avx2] {
        let src = [U16(65535), U16(0)];
        let mut dst = [U16(7)];
        let src_view = TypedImageView::new(2, 1, &src).unwrap();
        let dst_view = TypedImageViewMut::new(1, 1, &mut dst).unwrap();
        assert_eq!(U16::horiz_convolution(src_view, dst_view, 0, coeffs.clone(), cpu), Ok(()));
        assert_eq!(dst, [U16(0)]);
    }
}

#[test]
fn a_sum_of_exactly_one_half_rounds_up() {
    // 1 * 1/2 = 0.5 rounds to 1; 0 * 1/2 rounds to 0.
    let coeffs = Coefficients {
        values: vec![WEIGHT_ONE / 2, WEIGHT_ONE / 2],
        window_size: 1,
        bounds: vec![Bound { start: 0, size: 1 }, Bound { start: 1, size: 1 }],
    };
    let src = [U8(1), U8(0)];
    let mut dst = [U8(9), U8(9)];
    let src_view = TypedImageView::new(2, 1, &src).unwrap();
    let dst_view = TypedImageViewMut::new(2, 1, &mut dst).unwrap();
    assert_eq!(native::horiz_convolution(src_view, dst_view, 0, coeffs), Ok(()));
    assert_eq!(dst, [U8(1), U8(0)]);
}
