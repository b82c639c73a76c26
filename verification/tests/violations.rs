use resize_convolution::convolution::{
    avx2, check_windows, native, prepare_horiz, prepare_vert, Bound, Coefficients,
    ContractViolation, Convolution, WEIGHT_ONE,
};
use resize_convolution::image_view::{TypedImageView, TypedImageViewMut};
use resize_convolution::pixels::{U16, U8};
use resize_convolution::CpuExtensions;

fn identity(count: u32) -> Coefficients {
    Coefficients {
        values: vec![WEIGHT_ONE; count as usize],
        window_size: 1,
        bounds: (0..count).map(|start| Bound { start, size: 1 }).collect(),
    }
}

fn horiz(
    src: (u32, u32),
    dst: (u32, u32),
    offset: u32,
    coeffs: &Coefficients,
) -> Vec<(Result<(), ContractViolation>, bool)> {
    let src_pixels = vec![U8(9); (src.0 * src.1) as usize];
    let mut outcomes = Vec::new();
    for cpu in [CpuExtensions::Native, CpuExtensions::Sse4_1, CpuExtensions::Avx2] {
        let mut dst_pixels = vec![U8(1); (dst.0 * dst.1) as usize];
        let src_view = TypedImageView::new(src.0, src.1, &src_pixels).unwrap();
        let dst_view = TypedImageViewMut::new(dst.0, dst.1, &mut dst_pixels).unwrap();
        let r = U8::horiz_convolution(src_view, dst_view, offset, coeffs.clone(), cpu);
        let untouched = dst_pixels.iter().all(|p| *p == U8(1));
        outcomes.push((r, untouched));
    }
    outcomes
}

fn vert(
    src: (u32, u32),
    dst: (u32, u32),
    coeffs: &Coefficients,
) -> Vec<(Result<(), ContractViolation>, bool)> {
    let src_pixels = vec![U16(9); (src.0 * src.1) as usize];
    let mut outcomes = Vec::new();
    for cpu in [CpuExtensions::Native, CpuExtensions::Sse4_1, CpuExtensions::Avx2] {
        let mut dst_pixels = vec![U16(1); (dst.0 * dst.1) as usize];
        let src_view = TypedImageView::new(src.0, src.1, &src_pixels).unwrap();
        let dst_view = TypedImageViewMut::new(dst.0, dst.1, &mut dst_pixels).unwrap();
        let r = U16::vert_convolution(src_view, dst_view, coeffs.clone(), cpu);
        let untouched = dst_pixels.iter().all(|p| *p == U16(1));
        outcomes.push((r, untouched));
    }
    outcomes
}

fn refused(outcomes: Vec<(Result<(), ContractViolation>, bool)>, why: ContractViolation) {
    assert_eq!(outcomes.len(), 3);
    for (r, untouched) in outcomes {
        assert_eq!(r, Err(why));
        assert!(untouched);
    }
}

fn done(outcomes: Vec<(Result<(), ContractViolation>, bool)>) {
    for (r, untouched) in outcomes {
        assert_eq!(r, Ok(()));
        assert!(!untouched);
    }
}

#[test]
fn a_horizontal_pass_needs_a_window_per_column() {
    done(horiz((5, 2), (5, 2), 0, &identity(5)));
    refused(horiz((5, 2), (4, 2), 0, &identity(5)), ContractViolation::BoundsCount);
    refused(horiz((5, 2), (6, 2), 0, &identity(5)), ContractViolation::BoundsCount);
    refused(horiz((5, 2), (5, 2), 0, &identity(0)), ContractViolation::BoundsCount);
}

#[test]
fn a_horizontal_pass_needs_source_rows_below_the_offset() {
    done(horiz((5, 6), (5, 2), 4, &identity(5)));
    refused(horiz((5, 6), (5, 2), 5, &identity(5)), ContractViolation::ImageSize);
    refused(horiz((5, 6), (5, 7), 0, &identity(5)), ContractViolation::ImageSize);
    refused(horiz((5, 6), (5, 2), u32::MAX, &identity(5)), ContractViolation::ImageSize);
}

#[test]
fn a_horizontal_pass_needs_its_windows_inside_the_source_row() {
    let mut coeffs = identity(4);
    done(horiz((4, 1), (4, 1), 0, &coeffs));
    coeffs.bounds[2].start = 4;
    refused(horiz((4, 1), (4, 1), 0, &coeffs), ContractViolation::WindowOutOfRange);
    coeffs.bounds[2].start = u32::MAX;
    refused(horiz((4, 1), (4, 1), 0, &coeffs), ContractViolation::WindowOutOfRange);
    let wide = Coefficients {
        values: vec![WEIGHT_ONE / 2; 4],
        window_size: 2,
        bounds: vec![Bound { start: 0, size: 2 }, Bound { start: 2, size: 2 }],
    };
    done(horiz((4, 1), (2, 1), 0, &wide));
    refused(horiz((3, 1), (2, 1), 0, &wide), ContractViolation::WindowOutOfRange);
}

#[test]
fn a_pass_needs_a_uniform_layout() {
    let mut coeffs = identity(3);
    coeffs.values.push(0);
    refused(horiz((3, 1), (3, 1), 0, &coeffs), ContractViolation::CoefficientsLayout);
    refused(vert((1, 3), (1, 3), &coeffs), ContractViolation::CoefficientsLayout);
    let mut coeffs = identity(3);
    coeffs.window_size = 2;
    refused(horiz((3, 1), (3, 1), 0, &coeffs), ContractViolation::CoefficientsLayout);
    let mut coeffs = identity(3);
    coeffs.bounds[0].size = 2;
    refused(horiz((3, 1), (3, 1), 0, &coeffs), ContractViolation::CoefficientsLayout);
}

#[test]
fn a_pass_needs_weights_that_fit() {
    let mut coeffs = identity(3);
    coeffs.values[1] = 2 * WEIGHT_ONE;
    refused(horiz((3, 1), (3, 1), 0, &coeffs), ContractViolation::WeightOutOfRange);
    refused(vert((1, 3), (1, 3), &coeffs), ContractViolation::WeightOutOfRange);
    // One window of one tap: the magnitude of its weight may be one and no more.
    coeffs.values[1] = WEIGHT_ONE + (1 << 21);
    refused(horiz((3, 1), (3, 1), 0, &coeffs), ContractViolation::WeightOutOfRange);
    coeffs.values[1] = WEIGHT_ONE + (1 << 21) - 1;
    done(horiz((3, 1), (3, 1), 0, &coeffs));
    coeffs.values[1] = -WEIGHT_ONE;
    done(horiz((3, 1), (3, 1), 0, &coeffs));
}

#[test]
fn a_pass_needs_a_window_size_that_some_precision_fits() {
    if usize::BITS >= 64 {
        // No window has that many taps; the size alone is what is checked.
        let coeffs =
            Coefficients { values: Vec::new(), window_size: 1 << 62, bounds: Vec::new() };
        refused(horiz((3, 1), (0, 1), 0, &coeffs), ContractViolation::AccumulatorOverflow);
        refused(vert((1, 3), (1, 0), &coeffs), ContractViolation::AccumulatorOverflow);
    }
}

#[test]
fn a_vertical_pass_needs_a_window_per_row() {
    done(vert((2, 5), (2, 5), &identity(5)));
    refused(vert((2, 5), (2, 4), &identity(5)), ContractViolation::BoundsCount);
    refused(vert((2, 5), (2, 6), &identity(5)), ContractViolation::BoundsCount);
}

#[test]
fn a_vertical_pass_needs_images_of_one_width() {
    refused(vert((2, 5), (3, 5), &identity(5)), ContractViolation::ImageSize);
    refused(vert((3, 5), (2, 5), &identity(5)), ContractViolation::ImageSize);
}

#[test]
fn a_vertical_pass_needs_its_windows_inside_the_source_column() {
    done(vert((2, 5), (2, 3), &identity(3)));
    refused(vert((2, 2), (2, 3), &identity(3)), ContractViolation::WindowOutOfRange);
}

#[test]
fn the_first_failed_check_is_the_one_named() {
    // Wrong count, too few rows, a window outside, a broken layout, a weight of two.
    let mut coeffs = identity(3);
    coeffs.bounds[0].start = 50;
    coeffs.values[2] = 2 * WEIGHT_ONE;
    coeffs.values.push(0);
    refused(horiz((3, 1), (2, 2), 0, &coeffs), ContractViolation::BoundsCount);
    refused(horiz((3, 1), (3, 2), 0, &coeffs), ContractViolation::ImageSize);
    refused(horiz((3, 2), (3, 2), 0, &coeffs), ContractViolation::WindowOutOfRange);
    coeffs.bounds[0].start = 0;
    refused(horiz((3, 2), (3, 2), 0, &coeffs), ContractViolation::CoefficientsLayout);
    coeffs.values.pop();
    refused(horiz((3, 2), (3, 2), 0, &coeffs), ContractViolation::WeightOutOfRange);
    coeffs.values[2] = WEIGHT_ONE;
    done(horiz((3, 2), (3, 2), 0, &coeffs));
}

#[test]
fn windows_are_checked_against_the_source() {
    let coeffs = identity(4);
    assert!(check_windows(&coeffs, 4));
    assert!(check_windows(&coeffs, u32::MAX));
    assert!(!check_windows(&coeffs, 3));
    assert!(!check_windows(&coeffs, 0));
    assert!(check_windows(&identity(0), 0));
    let far = Coefficients {
        values: Vec::new(),
        window_size: 0,
        bounds: vec![Bound { start: u32::MAX, size: u32::MAX }],
    };
    assert!(!check_windows(&far, u32::MAX));
}

#[test]
fn a_checked_pass_hands_out_its_normalizer() {
    let src = vec![U8(0); 12];
    let mut dst = vec![U8(0); 6];
    let src_view = TypedImageView::new(4, 3, &src).unwrap();
    let dst_view = TypedImageViewMut::new(3, 2, &mut dst).unwrap();
    let guard = prepare_horiz(&src_view, &dst_view, 1, identity(3)).unwrap();
    assert_eq!(guard.precision(), 30);
    assert_eq!(guard.normalized_chunks().len(), 3);
    assert_eq!(
        prepare_horiz(&src_view, &dst_view, 2, identity(3)).err(),
        Some(ContractViolation::ImageSize)
    );
    assert_eq!(
        prepare_vert(&src_view, &dst_view, identity(2)).err(),
        Some(ContractViolation::ImageSize)
    );
    let mut dst = vec![U8(0); 8];
    let dst_view = TypedImageViewMut::new(4, 2, &mut dst).unwrap();
    let guard = prepare_vert(&src_view, &dst_view, identity(2)).unwrap();
    assert_eq!(guard.normalized_chunks()[1].start, 1);
}

#[test]
fn a_refused_pass_writes_nothing_on_either_kernel() {
    let src = vec![U16(5); 6];
    let mut dst = vec![U16(77); 6];
    let src_view = TypedImageView::new(3, 2, &src).unwrap();
    let dst_view = TypedImageViewMut::new(3, 2, &mut dst).unwrap();
    assert_eq!(
        native::horiz_convolution(src_view, dst_view, 1, identity(3)),
        Err(ContractViolation::ImageSize)
    );
    let dst_view = TypedImageViewMut::new(3, 2, &mut dst).unwrap();
    assert_eq!(
        avx2::horiz_convolution(src_view, dst_view, 0, identity(2)),
        Err(ContractViolation::BoundsCount)
    );
    let dst_view = TypedImageViewMut::new(3, 2, &mut dst).unwrap();
    assert_eq!(
        native::vert_convolution(src_view, dst_view, identity(3)),
        Err(ContractViolation::BoundsCount)
    );
    let dst_view = TypedImageViewMut::new(2, 3, &mut dst).unwrap();
    assert_eq!(
        avx2::vert_convolution(src_view, dst_view, identity(3)),
        Err(ContractViolation::ImageSize)
    );
    assert_eq!(dst, vec![U16(77); 6]);
}
