use resize_convolution::convolution::builder::{
    centre_index, filter_argument, flatten_windows, normalize_window, precompute_coefficients,
    rounded_quotient, settle_window, window_bound, window_total,
};
use resize_convolution::convolution::filters::{
    bilinear_filter, box_filter, BILINEAR_SUPPORT, BOX_SUPPORT,
};
use resize_convolution::convolution::{Bound, Coefficients, ContractViolation, WEIGHT_ONE};

fn window_of(coeffs: &Coefficients, i: usize) -> &[i64] {
    let from = i * coeffs.window_size;
    &coeffs.values[from..from + coeffs.bounds[i].size as usize]
}

fn check_shape(coeffs: &Coefficients, in_size: u32, out_size: u32) {
    assert_eq!(coeffs.bounds.len(), out_size as usize);
    assert_eq!(coeffs.values.len(), coeffs.window_size * out_size as usize);
    let mut longest = 0;
    for (i, bound) in coeffs.bounds.iter().enumerate() {
        assert!(bound.size >= 1);
        assert!(bound.start as u64 + bound.size as u64 <= in_size as u64);
        assert!(bound.size as usize <= coeffs.window_size);
        longest = longest.max(bound.size as usize);
        let sum: i64 = window_of(coeffs, i).iter().sum();
        assert!(2 * (sum - WEIGHT_ONE).abs() <= bound.size as i64);
        // One part in a million of one, the tolerance of a sum of weights.
        assert!((sum - WEIGHT_ONE).abs() as i128 * 1_000_000 <= WEIGHT_ONE as i128);
        let from = i * coeffs.window_size;
        for k in bound.size as usize..coeffs.window_size {
            assert_eq!(coeffs.values[from + k], 0);
        }
    }
    assert_eq!(coeffs.window_size, longest);
}

#[test]
fn quotients_round_to_nearest_halves_away_from_zero() {
    assert_eq!(rounded_quotient(7, 2), 4);
    assert_eq!(rounded_quotient(-7, 2), -4);
    assert_eq!(rounded_quotient(5, 3), 2);
    assert_eq!(rounded_quotient(4, 3), 1);
    assert_eq!(rounded_quotient(-4, 3), -1);
    assert_eq!(rounded_quotient(-5, 3), -2);
    assert_eq!(rounded_quotient(0, 9), 0);
    assert_eq!(rounded_quotient(1 << 120, 1), 1 << 120);
    assert_eq!(rounded_quotient(-(1 << 120), 1 << 120), -1);
}

#[test]
fn the_centre_of_a_window_falls_on_a_source_sample() {
    // Four to two: centres at 1 and 3.
    assert_eq!(centre_index(4, 2, 0), 1);
    assert_eq!(centre_index(4, 2, 1), 3);
    // Two to four: centres at 0.25, 0.75, 1.25, 1.75.
    assert_eq!(centre_index(2, 4, 0), 0);
    assert_eq!(centre_index(2, 4, 1), 0);
    assert_eq!(centre_index(2, 4, 2), 1);
    assert_eq!(centre_index(2, 4, 3), 1);
    assert_eq!(centre_index(u32::MAX, u32::MAX, u32::MAX - 1), u32::MAX - 1);
    assert_eq!(centre_index(u32::MAX, 1, 0), u32::MAX / 2);
}

#[test]
fn windows_of_a_reduction_cover_the_stretched_kernel() {
    // Four to two, radius 1/2 stretched by two: [0, 2] and [2, 4].
    assert_eq!(window_bound(4, 2, BOX_SUPPORT, 0), Bound { start: 0, size: 2 });
    assert_eq!(window_bound(4, 2, BOX_SUPPORT, 1), Bound { start: 2, size: 2 });
    // Radius 1 stretched by two: [-1, 3] and [1, 5], clipped.
    assert_eq!(window_bound(4, 2, BILINEAR_SUPPORT, 0), Bound { start: 0, size: 3 });
    assert_eq!(window_bound(4, 2, BILINEAR_SUPPORT, 1), Bound { start: 1, size: 3 });
    // Ten to three, radius 1 stretched by 10/3: centres at 5/3, 5, 25/3.
    assert_eq!(window_bound(10, 3, BILINEAR_SUPPORT, 0), Bound { start: 0, size: 5 });
    assert_eq!(window_bound(10, 3, BILINEAR_SUPPORT, 1), Bound { start: 1, size: 8 });
    assert_eq!(window_bound(10, 3, BILINEAR_SUPPORT, 2), Bound { start: 5, size: 5 });
}

#[test]
fn windows_of_an_enlargement_keep_the_radius_of_the_kernel() {
    // Two to four, radius 1: centres at 0.25, 0.75, 1.25, 1.75.
    assert_eq!(window_bound(2, 4, BILINEAR_SUPPORT, 0), Bound { start: 0, size: 2 });
    assert_eq!(window_bound(2, 4, BILINEAR_SUPPORT, 1), Bound { start: 0, size: 2 });
    assert_eq!(window_bound(2, 4, BILINEAR_SUPPORT, 2), Bound { start: 0, size: 2 });
    assert_eq!(window_bound(2, 4, BILINEAR_SUPPORT, 3), Bound { start: 0, size: 2 });
    assert_eq!(window_bound(2, 4, BOX_SUPPORT, 0), Bound { start: 0, size: 1 });
    assert_eq!(window_bound(2, 4, BOX_SUPPORT, 1), Bound { start: 0, size: 2 });
    assert_eq!(window_bound(2, 4, BOX_SUPPORT, 2), Bound { start: 0, size: 2 });
    assert_eq!(window_bound(2, 4, BOX_SUPPORT, 3), Bound { start: 1, size: 1 });
}

#[test]
fn a_window_with_no_radius_is_the_sample_under_the_centre() {
    // Centre 1.0 of four to two: the ideal window [1, 1] is empty.
    assert_eq!(window_bound(4, 2, 0, 0), Bound { start: 1, size: 1 });
    assert_eq!(window_bound(4, 2, 0, 1), Bound { start: 3, size: 1 });
    // Centre 0.5: the ideal window [0.5, 0.5] rounds out to [0, 1].
    assert_eq!(window_bound(3, 3, 0, 0), Bound { start: 0, size: 1 });
    assert_eq!(window_bound(3, 3, 0, 2), Bound { start: 2, size: 1 });
}

#[test]
fn windows_stay_inside_the_source_whatever_the_radius() {
    for (in_size, out_size) in [(1u32, 1u32), (1, 9), (9, 1), (7, 3), (3, 7), (100, 99), (5, 500)] {
        for support in [0i64, 1, WEIGHT_ONE / 2, WEIGHT_ONE, 3 * WEIGHT_ONE, i64::MAX] {
            for i in 0..out_size {
                let bound = window_bound(in_size, out_size, support, i);
                assert!(bound.size >= 1);
                assert!(bound.start + bound.size <= in_size);
            }
        }
    }
    assert_eq!(window_bound(5, 500, i64::MAX, 499), Bound { start: 0, size: 5 });
    // The largest radius is just under 2048 samples.
    assert_eq!(
        window_bound(u32::MAX, u32::MAX, i64::MAX, u32::MAX - 1),
        Bound { start: u32::MAX - 2049, size: 2049 }
    );
}

#[test]
fn the_kernel_is_asked_at_the_distance_from_the_centre() {
    // Four to two: the stretched kernel is two samples wide per unit.
    assert_eq!(filter_argument(4, 2, 0, 0), -WEIGHT_ONE / 4);
    assert_eq!(filter_argument(4, 2, 0, 1), WEIGHT_ONE / 4);
    assert_eq!(filter_argument(4, 2, 1, 2), -WEIGHT_ONE / 4);
    assert_eq!(filter_argument(4, 2, 1, 0), -5 * (WEIGHT_ONE / 4));
    // Two to four: one sample per unit.
    assert_eq!(filter_argument(2, 4, 0, 0), WEIGHT_ONE / 4);
    assert_eq!(filter_argument(2, 4, 1, 0), -WEIGHT_ONE / 4);
    assert_eq!(filter_argument(2, 4, 3, 1), -WEIGHT_ONE / 4);
    // Three to one: (x + 1/2 - 3/2) / 3.
    assert_eq!(filter_argument(3, 1, 0, 1), 0);
    assert_eq!(filter_argument(3, 1, 0, 0), -1501199875790165);
    assert_eq!(filter_argument(3, 1, 0, 2), 1501199875790165);
}

#[test]
fn the_argument_of_a_far_sample_saturates() {
    assert_eq!(filter_argument(1, u32::MAX, 0, u32::MAX), i64::MAX);
    // (1/2 - (2^32 - 1) / 2) / (2^32 - 1): a little less than one half from the centre.
    assert_eq!(filter_argument(u32::MAX, 1, 0, 0), -WEIGHT_ONE / 2 + (1 << 19));
    assert_eq!(filter_argument(1, u32::MAX, u32::MAX, 0), -WEIGHT_ONE / 2 - (1 << 19));
    assert_eq!(filter_argument(1, u32::MAX, u32::MAX, u32::MAX), i64::MAX);
    assert_eq!(filter_argument(u32::MAX, u32::MAX, u32::MAX, 0), i64::MIN);
}

#[test]
fn a_window_adds_up_in_wide_arithmetic() {
    assert_eq!(window_total(&[]), 0);
    assert_eq!(window_total(&[1, -2, 3]), 2);
    assert_eq!(window_total(&[i64::MAX, i64::MAX, i64::MAX]), 3 * (i64::MAX as i128));
    assert_eq!(window_total(&[i64::MIN, i64::MIN]), 2 * (i64::MIN as i128));
}

#[test]
fn weights_are_divided_by_their_sum() {
    assert_eq!(normalize_window(&[1, 1]), Some(vec![WEIGHT_ONE / 2, WEIGHT_ONE / 2]));
    assert_eq!(normalize_window(&[7]), Some(vec![WEIGHT_ONE]));
    assert_eq!(normalize_window(&[-7]), Some(vec![WEIGHT_ONE]));
    assert_eq!(
        normalize_window(&[1, 2, 1]),
        Some(vec![WEIGHT_ONE / 4, WEIGHT_ONE / 2, WEIGHT_ONE / 4])
    );
    assert_eq!(
        normalize_window(&[WEIGHT_ONE, WEIGHT_ONE, WEIGHT_ONE]),
        Some(vec![1501199875790165, 1501199875790165, 1501199875790165])
    );
    assert_eq!(
        normalize_window(&[-1, 3]),
        Some(vec![-WEIGHT_ONE / 2, WEIGHT_ONE + WEIGHT_ONE / 2])
    );
    assert_eq!(normalize_window(&[-1, -1]), Some(vec![WEIGHT_ONE / 2, WEIGHT_ONE / 2]));
}

#[test]
fn weights_that_cancel_cannot_be_normalized() {
    assert_eq!(normalize_window(&[]), None);
    assert_eq!(normalize_window(&[0]), None);
    assert_eq!(normalize_window(&[5, -5]), None);
    assert_eq!(normalize_window(&[i64::MAX, i64::MIN, 1]), None);
}

#[test]
fn quotients_that_do_not_fit_cannot_be_normalized() {
    // 4096 / 1 = 4096 ones: 2^64.
    assert_eq!(normalize_window(&[4096, -4095]), None);
    assert!(normalize_window(&[2047, -2046]).is_some());
    assert_eq!(normalize_window(&[i64::MAX, 1 - i64::MAX]), None);
}

#[test]
fn a_window_settles_on_its_span_or_on_the_sample_under_the_centre() {
    let span = Bound { start: 3, size: 2 };
    assert_eq!(
        settle_window(span, 4, &[1, 3]),
        Some((span, vec![WEIGHT_ONE / 4, 3 * (WEIGHT_ONE / 4)]))
    );
    assert_eq!(
        settle_window(span, 4, &[6, -6]),
        Some((Bound { start: 4, size: 1 }, vec![WEIGHT_ONE]))
    );
    assert_eq!(
        settle_window(span, 4, &[0, 0]),
        Some((Bound { start: 4, size: 1 }, vec![WEIGHT_ONE]))
    );
    assert_eq!(settle_window(span, 4, &[4096, -4095]), None);
    let none = Bound { start: 0, size: 0 };
    assert_eq!(settle_window(none, 9, &[]), Some((Bound { start: 9, size: 1 }, vec![WEIGHT_ONE])));
}

#[test]
fn windows_are_laid_out_one_after_the_other() {
    let windows = vec![vec![1, 2, 3], vec![], vec![4]];
    assert_eq!(flatten_windows(&windows, 3), Some(vec![1, 2, 3, 0, 0, 0, 4, 0, 0]));
    assert_eq!(flatten_windows(&windows, 4), Some(vec![1, 2, 3, 0, 0, 0, 0, 0, 4, 0, 0, 0]));
    assert_eq!(flatten_windows(&Vec::new(), 7), Some(Vec::new()));
    assert_eq!(flatten_windows(&vec![Vec::new(), Vec::new()], 0), Some(Vec::new()));
}

#[test]
fn a_layout_past_the_address_space_is_refused() {
    let windows = vec![Vec::new(), Vec::new()];
    assert_eq!(flatten_windows(&windows, usize::MAX), None);
    assert_eq!(flatten_windows(&windows, usize::MAX / 2 + 1), None);
}

#[test]
fn bilinear_weights_of_a_reduction() {
    let coeffs = precompute_coefficients(4, 2, bilinear_filter, BILINEAR_SUPPORT).unwrap();
    assert_eq!(coeffs.window_size, 3);
    assert_eq!(coeffs.bounds, vec![Bound { start: 0, size: 3 }, Bound { start: 1, size: 3 }]);
    // Arguments -1/4, 1/4, 3/4: raw weights 3/4, 3/4, 1/4, over 7/4.
    let three_sevenths = 1930114126015927;
    let one_seventh = 643371375338642;
    assert_eq!(window_of(&coeffs, 0), &[three_sevenths, three_sevenths, one_seventh]);
    assert_eq!(window_of(&coeffs, 1), &[one_seventh, three_sevenths, three_sevenths]);
}

#[test]
fn edge_windows_are_shorter_and_still_add_up_to_one() {
    let coeffs = precompute_coefficients(10, 3, bilinear_filter, BILINEAR_SUPPORT).unwrap();
    assert_eq!(
        coeffs.bounds,
        vec![
            Bound { start: 0, size: 5 },
            Bound { start: 1, size: 8 },
            Bound { start: 5, size: 5 }
        ]
    );
    assert_eq!(coeffs.window_size, 8);
    check_shape(&coeffs, 10, 3);
    // The middle window is whole and symmetric.
    let middle = window_of(&coeffs, 1);
    for k in 0..4 {
        assert_eq!(middle[k], middle[7 - k]);
    }
    // The edge windows mirror each other.
    let first = window_of(&coeffs, 0);
    let last = window_of(&coeffs, 2);
    for k in 0..5 {
        assert_eq!(first[k], last[4 - k]);
    }
}

#[test]
fn every_window_has_a_tap_and_adds_up_to_one() {
    for (in_size, out_size) in [
        (1u32, 1u32),
        (1, 5),
        (5, 1),
        (7, 3),
        (3, 7),
        (16, 16),
        (100, 33),
        (33, 100),
        (1000, 7),
    ] {
        let coeffs = precompute_coefficients(in_size, out_size, box_filter, BOX_SUPPORT).unwrap();
        check_shape(&coeffs, in_size, out_size);
        let coeffs =
            precompute_coefficients(in_size, out_size, bilinear_filter, BILINEAR_SUPPORT).unwrap();
        check_shape(&coeffs, in_size, out_size);
        let lobes = |x: i64| if x.abs() < WEIGHT_ONE { WEIGHT_ONE - 2 * x.abs() } else { x / 8 };
        let coeffs = precompute_coefficients(in_size, out_size, lobes, 3 * WEIGHT_ONE).unwrap();
        check_shape(&coeffs, in_size, out_size);
    }
}

#[test]
fn a_kernel_that_is_zero_leaves_the_sample_under_the_centre() {
    let coeffs = precompute_coefficients(6, 3, |_x: i64| 0i64, 2 * WEIGHT_ONE).unwrap();
    assert_eq!(coeffs.window_size, 1);
    assert_eq!(
        coeffs.bounds,
        vec![
            Bound { start: 1, size: 1 },
            Bound { start: 3, size: 1 },
            Bound { start: 5, size: 1 }
        ]
    );
    assert_eq!(coeffs.values, vec![WEIGHT_ONE; 3]);
}

#[test]
fn weights_that_cancel_leave_the_sample_under_the_centre() {
    // Odd about the centre: the weights of a whole window cancel.
    let coeffs = precompute_coefficients(9, 3, |x: i64| x, WEIGHT_ONE / 2).unwrap();
    assert_eq!(coeffs.bounds[1], Bound { start: 4, size: 1 });
    assert_eq!(window_of(&coeffs, 1), &[WEIGHT_ONE]);
    check_shape(&coeffs, 9, 3);
}

#[test]
fn the_kernel_is_asked_once_per_tap_in_order() {
    let seen = std::cell::RefCell::new(Vec::new());
    let recording = |x: i64| {
        seen.borrow_mut().push(x);
        box_filter(x)
    };
    let coeffs = precompute_coefficients(4, 2, recording, BOX_SUPPORT).unwrap();
    assert_eq!(coeffs.bounds.len(), 2);
    assert_eq!(
        *seen.borrow(),
        vec![-WEIGHT_ONE / 4, WEIGHT_ONE / 4, -WEIGHT_ONE / 4, WEIGHT_ONE / 4]
    );
}

#[test]
fn an_axis_without_samples_is_refused() {
    assert_eq!(
        precompute_coefficients(0, 4, box_filter, BOX_SUPPORT).err(),
        Some(ContractViolation::EmptyAxis)
    );
    assert_eq!(
        precompute_coefficients(4, 0, box_filter, BOX_SUPPORT).err(),
        Some(ContractViolation::EmptyAxis)
    );
    assert_eq!(
        precompute_coefficients(0, 0, box_filter, -1).err(),
        Some(ContractViolation::EmptyAxis)
    );
}

#[test]
fn a_negative_support_is_refused() {
    assert_eq!(
        precompute_coefficients(4, 4, box_filter, -1).err(),
        Some(ContractViolation::NegativeSupport)
    );
    assert_eq!(
        precompute_coefficients(4, 4, box_filter, i64::MIN).err(),
        Some(ContractViolation::NegativeSupport)
    );
    assert!(precompute_coefficients(4, 4, box_filter, 0).is_ok());
}

#[test]
fn weights_that_nearly_cancel_are_out_of_range() {
    // Two taps: 4096 and -4095 over a sum of one.
    let near = |x: i64| if x < 0 { 4096 } else { -4095 };
    assert_eq!(
        precompute_coefficients(4, 2, near, BOX_SUPPORT).err(),
        Some(ContractViolation::WeightOutOfRange)
    );
}
