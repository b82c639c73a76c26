use resize_convolution::convolution::avx2::{
    accumulate, accumulate_four_rows, convolve_four_columns, horiz_convolution_four_rows,
    horiz_convolution_one_row,
};
use resize_convolution::convolution::native::convolve_column;
use resize_convolution::convolution::optimisations::NormalizerGuard32;
use resize_convolution::convolution::{Bound, Coefficients, WEIGHT_ONE};
use resize_convolution::image_view::{TypedImageView, TypedImageViewMut};
use resize_convolution::pixels::{U16, U8};
use resize_convolution::simd_utils::{
    add_epi64, load_lanes, load_taps, load_weights, madd, madd_16, madd_4, madd_8, madd_group,
    mul_epi32, reduce_add, set1_epi64x, shuffle,
};

fn counting() -> [i64; 16] {
    let mut group = [0i64; 16];
    for (j, entry) in group.iter_mut().enumerate() {
        *entry = j as i64 + 1;
    }
    group
}

fn powers() -> [i64; 16] {
    let mut group = [0i64; 16];
    for (j, entry) in group.iter_mut().enumerate() {
        *entry = 1i64 << j;
    }
    group
}

#[test]
fn a_group_is_loaded_wide_and_padded_with_zeros() {
    let row: Vec<U16> = (0..20).map(|i| U16(1000 + i)).collect();
    let group = load_taps(&row, 2, 16);
    let want: Vec<i64> = (0..16).map(|j| 1002 + j).collect();
    assert_eq!(group.to_vec(), want);
    let group = load_taps(&row, 17, 3);
    assert_eq!(group, [1017, 1018, 1019, 0, 0, 0, 0, 0, 0, 0, 0, 0, 0, 0, 0, 0]);
    assert_eq!(load_taps(&row, 20, 0), [0; 16]);
    let bytes = [U8(255), U8(0), U8(7)];
    assert_eq!(load_taps(&bytes, 0, 3)[..4], [255, 0, 7, 0]);
}

#[test]
fn weights_are_loaded_with_their_sign() {
    let values = [i32::MIN, -1, 0, 1, i32::MAX];
    let group = load_weights(&values, 0, 5);
    assert_eq!(group[..6], [i32::MIN as i64, -1, 0, 1, i32::MAX as i64, 0]);
    let group = load_weights(&values, 3, 2);
    assert_eq!(group[..3], [1, i32::MAX as i64, 0]);
}

#[test]
fn four_samples_are_loaded_one_per_lane() {
    let row = [U8(1), U8(2), U8(3), U8(4), U8(5)];
    assert_eq!(load_lanes(&row, 0), [1, 2, 3, 4]);
    assert_eq!(load_lanes(&row, 1), [2, 3, 4, 5]);
    assert_eq!(set1_epi64x(-9), [-9, -9, -9, -9]);
}

#[test]
fn lanes_multiply_and_add_by_themselves() {
    assert_eq!(mul_epi32([1, -2, 3, 0], [5, 6, -7, 8]), [5, -12, -21, 0]);
    assert_eq!(
        mul_epi32([i32::MIN as i64; 4], [i32::MIN as i64, i32::MAX as i64, 1, -1]),
        [1 << 62, -(1 << 62) + (1 << 31), i32::MIN as i64, 1 << 31]
    );
    assert_eq!(add_epi64([1, 2, 3, 4], [10, -20, 30, -40]), [11, -18, 33, -36]);
    assert_eq!(add_epi64([i64::MAX, i64::MIN, 0, 0], [0, 0, 0, 0]), [i64::MAX, i64::MIN, 0, 0]);
    assert_eq!(reduce_add([1, 2, 3, 4]), 10);
    assert_eq!(reduce_add([i64::MAX, 0, 0, 0]), i64::MAX);
    assert_eq!(reduce_add([5, -5, 7, -7]), 0);
}

#[test]
fn a_shuffle_takes_two_entries_for_each_half() {
    let group = counting();
    assert_eq!(shuffle(&group, 0, 8), [1, 2, 9, 10]);
    assert_eq!(shuffle(&group, 6, 14), [7, 8, 15, 16]);
    assert_eq!(shuffle(&group, 2, 6), [3, 4, 7, 8]);
    assert_eq!(shuffle(&group, 0, 2), [1, 2, 3, 4]);
}

#[test]
fn sixteen_taps_land_in_their_lanes() {
    let taps = counting();
    let weights = powers();
    let product = |j: usize| taps[j] * weights[j];
    assert_eq!(madd([1, 2, 3, 4], &taps, &weights, 2, 10), [
        1 + product(2),
        2 + product(3),
        3 + product(10),
        4 + product(11),
    ]);
    assert_eq!(madd_16([1, 2, 3, 4], &taps, &weights), [
        1 + product(0) + product(2) + product(4) + product(6),
        2 + product(1) + product(3) + product(5) + product(7),
        3 + product(8) + product(10) + product(12) + product(14),
        4 + product(9) + product(11) + product(13) + product(15),
    ]);
    assert_eq!(madd_8([0; 4], &taps, &weights), [
        product(0) + product(2),
        product(1) + product(3),
        product(4) + product(6),
        product(5) + product(7),
    ]);
    assert_eq!(madd_4([0; 4], &taps, &weights), [product(0), product(1), product(2), product(3)]);
}

#[test]
fn a_group_of_any_width_adds_its_products() {
    let row: Vec<U16> = (0..16).map(|i| U16(3 * i + 1)).collect();
    let values: Vec<i32> = (0..16).map(|i| 100 - 13 * i).collect();
    for width in [0usize, 1, 2, 3, 4, 8, 16] {
        let taps = load_taps(&row, 0, width);
        let weights = load_weights(&values, 0, width);
        let want: i64 = (0..width).map(|j| (3 * j as i64 + 1) * (100 - 13 * j as i64)).sum();
        assert_eq!(reduce_add(madd_group([5, 0, 0, 0], &taps, &weights, width)), 5 + want);
        assert_eq!(reduce_add(accumulate([0, 0, 7, 0], &row, 0, &weights, width)), 7 + want);
    }
}

#[test]
fn a_group_of_samples_lands_in_the_lanes_of_its_width() {
    let row: Vec<U8> = (1..=16).map(U8).collect();
    let values: Vec<i32> = (0..16).map(|j| 1 << j).collect();
    let product = |j: i64| (j + 1) * (1i64 << j);
    let weights = load_weights(&values, 0, 16);
    assert_eq!(accumulate([0; 4], &row, 0, &weights, 16), [
        product(0) + product(2) + product(4) + product(6),
        product(1) + product(3) + product(5) + product(7),
        product(8) + product(10) + product(12) + product(14),
        product(9) + product(11) + product(13) + product(15),
    ]);
    let weights = load_weights(&values, 0, 8);
    assert_eq!(accumulate([1, 1, 1, 1], &row, 0, &weights, 8), [
        1 + product(0) + product(2),
        1 + product(1) + product(3),
        1 + product(4) + product(6),
        1 + product(5) + product(7),
    ]);
    let weights = load_weights(&values, 0, 3);
    assert_eq!(accumulate([0; 4], &row, 0, &weights, 3), [product(0), product(1), product(2), 0]);
    // From the third sample on: the weights stay, the samples move.
    assert_eq!(accumulate([0; 4], &row, 2, &weights, 3), [3, 4 * 2, 5 * 4, 0]);
    assert_eq!(madd_group([9, 8, 7, 6], &load_taps(&row, 0, 2), &weights, 2), [10, 12, 7, 6]);
}

#[test]
fn a_group_is_multiplied_into_four_rows() {
    let rows: Vec<Vec<U8>> =
        (0..4).map(|r| (0..8).map(|i| U8((10 * r + i) as u8)).collect()).collect();
    let src_rows = [&rows[0][..], &rows[1][..], &rows[2][..], &rows[3][..]];
    let weights = load_weights(&[1, -1, 2, -2, 3, -3, 4, -4], 0, 8);
    let sums = accumulate_four_rows([[0; 4]; 4], &src_rows, 0, &weights, 8);
    for r in 0..4i64 {
        let want: i64 = (0..8i64)
            .map(|i| (10 * r + i) * [1, -1, 2, -2, 3, -3, 4, -4][i as usize])
            .sum();
        assert_eq!(reduce_add(sums[r as usize]), want);
    }
}

fn three_chunks() -> (NormalizerGuard32, Vec<i64>) {
    // Windows of 1, 5 and 21 taps: every group width in one row.
    let mut values = Vec::new();
    let mut flat = Vec::new();
    for taps in [1i64, 5, 21] {
        for k in 0..21 {
            let extra = if k == 0 { WEIGHT_ONE % taps } else { 0 };
            let w = if k < taps { WEIGHT_ONE / taps + extra } else { 0 };
            values.push(w);
            if k < taps {
                flat.push(w);
            }
        }
    }
    let coeffs = Coefficients {
        values,
        window_size: 21,
        bounds: vec![
            Bound { start: 3, size: 1 },
            Bound { start: 0, size: 5 },
            Bound { start: 2, size: 21 },
        ],
    };
    (NormalizerGuard32::with_precision::<U16>(coeffs, 12).unwrap(), flat)
}

fn reference(row: &[U16], start: usize, weights: &[i32], precision: u8) -> U16 {
    let mut sum: i128 = 1 << (precision - 1);
    for (k, w) in weights.iter().enumerate() {
        sum += row[start + k].0 as i128 * *w as i128;
    }
    U16(sum.div_euclid(1 << precision).clamp(0, 65535) as u16)
}

#[test]
fn one_row_on_the_lanes_is_the_sum_of_its_taps() {
    let (guard, _) = three_chunks();
    let chunks = guard.normalized_chunks();
    let row: Vec<U16> = (0..23).map(|i| U16(60000 - 2500 * i)).collect();
    let mut dst = [U16(0); 3];
    horiz_convolution_one_row(&row, &mut dst, &chunks, &guard);
    for x in 0..3 {
        assert_eq!(dst[x], reference(&row, chunks[x].start as usize, chunks[x].values, 12));
    }
    assert_eq!(dst[0], U16(52500));
}

#[test]
fn four_rows_on_the_lanes_are_four_times_one_row() {
    let (guard, _) = three_chunks();
    let chunks = guard.normalized_chunks();
    let src: Vec<U16> = (0..4 * 23).map(|i| U16((i * 709 % 65536) as u16)).collect();
    let src_view = TypedImageView::new(23, 4, &src).unwrap();
    let mut together = vec![U16(0); 12];
    {
        let mut dst_view = TypedImageViewMut::new(3, 4, &mut together).unwrap();
        let dst_rows = dst_view.four_rows_mut(0).unwrap();
        horiz_convolution_four_rows(src_view.four_rows(0).unwrap(), dst_rows, &chunks, &guard);
    }
    for y in 0..4u32 {
        let mut alone = [U16(0); 3];
        horiz_convolution_one_row(src_view.get_row(y).unwrap(), &mut alone, &chunks, &guard);
        assert_eq!(&together[3 * y as usize..][..3], &alone);
        for x in 0..3 {
            let row = src_view.get_row(y).unwrap();
            assert_eq!(alone[x], reference(row, chunks[x].start as usize, chunks[x].values, 12));
        }
    }
}

#[test]
fn four_columns_on_the_lanes_are_four_times_one_column() {
    let (guard, _) = three_chunks();
    let chunks = guard.normalized_chunks();
    let src: Vec<U16> = (0..6 * 23).map(|i| U16((i * 4099 % 65536) as u16)).collect();
    let src_view = TypedImageView::new(6, 23, &src).unwrap();
    for chunk in chunks.iter() {
        for x in 0..=2u32 {
            let together = convolve_four_columns(&src_view, x, chunk, &guard);
            for j in 0..4u32 {
                let alone = convolve_column(&src_view, x + j, chunk, &guard);
                assert_eq!(together[j as usize], alone);
                let column: Vec<U16> =
                    (0..23).map(|y| src[(y * 6 + x + j) as usize]).collect();
                assert_eq!(alone, reference(&column, chunk.start as usize, chunk.values, 12));
            }
        }
    }
}
