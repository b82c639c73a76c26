//! What holds of every pass, whichever kernel ran it.
use super::optimisations::{
    chosen_precision, lemma_chosen_precision_fits, normalized, normalized_chunk, round_weight,
    MAX_PRECISION, MIN_PRECISION,
};
use super::{
    clip, column, convolved, half_error, horiz_outcome, vert_outcome, window_sum, Coefficients,
    ContractViolation, WEIGHT_FRACTION_BITS, WEIGHT_ONE,
};
use crate::image_view::{
    lemma_rows_determine_buffer, rows_of, TypedImageView, TypedImageViewMut,
};
use crate::pixels::{samples, Pixel};
use vstd::arithmetic::power2::{
    lemma2_to64, lemma2_to64_rest, lemma_pow2_adds, lemma_pow2_pos, pow2,
};
use vstd::prelude::*;

verus! {

/// A horizontal pass has one outcome. Two kernels that both keep the
/// contract of the pass, run on the same source, destination, offset and
/// coefficients, return the same verdict and leave the same pixels behind,
/// bit for bit.
pub proof fn lemma_horiz_outcome_unique<P: Pixel>(
    src_image: TypedImageView<P>,
    dst_image: TypedImageViewMut<P>,
    offset: u32,
    coeffs: Coefficients,
    written_a: Seq<P>,
    r_a: Result<(), ContractViolation>,
    written_b: Seq<P>,
    r_b: Result<(), ContractViolation>,
)
    requires
        dst_image.wf(),
        horiz_outcome(src_image, dst_image, offset, coeffs, written_a, r_a),
        horiz_outcome(src_image, dst_image, offset, coeffs, written_b, r_b),
    ensures
        r_a == r_b,
        written_a == written_b,
{
    dst_image.lemma_buffer_len();
    match (r_a, r_b) {
        (Ok(a), Ok(b)) => {
            assert(a == b);
        },
        (Err(a), Err(b)) => {
            assert(a == b);
        },
        _ => {},
    }
    if r_a is Ok {
        let width = dst_image.spec_width();
        let height = dst_image.spec_height();
        let out_a = rows_of(written_a, width, height);
        let out_b = rows_of(written_b, width, height);
        assert forall|y: int, x: int|
            0 <= y < height && 0 <= x < width implies #[trigger] out_a[y][x] == out_b[y][x] by {
            out_a[y][x].lemma_value_determines(out_b[y][x]);
        }
        lemma_rows_determine_buffer(written_a, written_b, width, height);
    }
}

/// A vertical pass has one outcome. Two kernels that both keep the contract
/// of the pass, run on the same source, destination and coefficients, return
/// the same verdict and leave the same pixels behind, bit for bit.
pub proof fn lemma_vert_outcome_unique<P: Pixel>(
    src_image: TypedImageView<P>,
    dst_image: TypedImageViewMut<P>,
    coeffs: Coefficients,
    written_a: Seq<P>,
    r_a: Result<(), ContractViolation>,
    written_b: Seq<P>,
    r_b: Result<(), ContractViolation>,
)
    requires
        dst_image.wf(),
        vert_outcome(src_image, dst_image, coeffs, written_a, r_a),
        vert_outcome(src_image, dst_image, coeffs, written_b, r_b),
    ensures
        r_a == r_b,
        written_a == written_b,
{
    dst_image.lemma_buffer_len();
    match (r_a, r_b) {
        (Ok(a), Ok(b)) => {
            assert(a == b);
        },
        (Err(a), Err(b)) => {
            assert(a == b);
        },
        _ => {},
    }
    if r_a is Ok {
        let width = dst_image.spec_width();
        let height = dst_image.spec_height();
        let out_a = rows_of(written_a, width, height);
        let out_b = rows_of(written_b, width, height);
        assert forall|y: int, x: int|
            0 <= y < height && 0 <= x < width implies #[trigger] out_a[y][x] == out_b[y][x] by {
            out_a[y][x].lemma_value_determines(out_b[y][x]);
        }
        lemma_rows_determine_buffer(written_a, written_b, width, height);
    }
}

/// Every convolved sample lies in `[0, max]`, whatever the samples and the
/// weights: a sum that leaves the range is brought back to its nearer end.
pub proof fn lemma_convolved_in_range(
    samples: Seq<int>,
    start: int,
    weights: Seq<int>,
    precision: nat,
    max: int,
)
    requires
        0 <= max,
    ensures
        0 <= convolved(samples, start, weights, precision, max) <= max,
{
}

/// A sum above the range saturates to `max`, a sum below it to zero.
pub proof fn lemma_clip_saturates(sum: int, precision: nat, max: int)
    requires
        0 <= max,
    ensures
        sum >= (max + 1) * pow2(precision) ==> clip(sum, precision, max) == max,
        sum < 0 ==> clip(sum, precision, max) == 0,
{
    lemma_pow2_pos(precision);
    let unit = pow2(precision) as int;
    if sum >= (max + 1) * unit {
        vstd::arithmetic::div_mod::lemma_div_is_ordered((max + 1) * unit, sum, unit);
        vstd::arithmetic::div_mod::lemma_div_multiples_vanish(max + 1, unit);
        assert((max + 1) * unit == unit * (max + 1)) by (nonlinear_arith);
    }
    if sum < 0 {
        super::lemmas::lemma_negative_quotient(sum, unit);
    }
}

/// A window of one tap whose weight is one yields the sample it points at.
pub proof fn lemma_unit_window(samples: Seq<int>, start: int, precision: nat, max: int)
    requires
        1 <= precision,
        0 <= samples[start] <= max,
    ensures
        convolved(samples, start, seq![pow2(precision) as int], precision, max) == samples[start],
{
    let unit = pow2(precision) as int;
    let weights = seq![unit];
    let v = samples[start];
    lemma_pow2_pos(precision);
    lemma_pow2_pos((precision - 1) as nat);
    lemma_pow2_adds((precision - 1) as nat, 1);
    lemma2_to64();
    assert(window_sum(samples, start, weights, 1) == v * unit) by {
        reveal_with_fuel(window_sum, 2);
    }
    assert(2 * half_error(precision) == unit);
    vstd::arithmetic::div_mod::lemma_fundamental_div_mod_converse(
        v * unit + half_error(precision),
        unit,
        v,
        half_error(precision),
    );
    assert(unit * v == v * unit) by (nonlinear_arith);
}

/// A weight of one, rounded to any precision a normalizer works with, is
/// `2^precision`.
pub proof fn lemma_round_one(precision: nat)
    requires
        MIN_PRECISION <= precision <= MAX_PRECISION,
    ensures
        round_weight(WEIGHT_ONE as int, precision) == pow2(precision),
{
    let shift = (WEIGHT_FRACTION_BITS - precision) as nat;
    lemma_pow2_adds(precision, shift);
    lemma_pow2_adds((shift - 1) as nat, 1);
    lemma_pow2_pos(shift);
    lemma_pow2_pos((shift - 1) as nat);
    lemma2_to64();
    lemma2_to64_rest();
    let unit = pow2(shift) as int;
    assert(WEIGHT_ONE == pow2(precision) * unit);
    vstd::arithmetic::div_mod::lemma_fundamental_div_mod_converse(
        WEIGHT_ONE + pow2((shift - 1) as nat),
        unit,
        pow2(precision) as int,
        pow2((shift - 1) as nat) as int,
    );
    assert(unit * pow2(precision) == pow2(precision) * unit) by (nonlinear_arith);
}

/// The sum of the first `n` entries of `weights`.
pub open spec fn total(weights: Seq<int>, n: int) -> int
    decreases n,
{
    if n <= 0 {
        0
    } else {
        total(weights, n - 1) + weights[n - 1]
    }
}

/// The weights of window `i` of `coeffs` as they were handed in.
pub open spec fn window_weights(coeffs: Coefficients, i: int) -> Seq<int> {
    Seq::new(
        coeffs.bounds[i].size as nat,
        |k: int| coeffs.values[i * coeffs.window_size + k] as int,
    )
}

/// Half a unit of the last place: what rounding to `precision` can move a
/// weight by, in units of `2^-52`.
pub open spec fn half_unit(precision: nat) -> int {
    pow2((WEIGHT_FRACTION_BITS - precision - 1) as nat) as int
}

/// Rounding moves a weight by at most half a unit of the last place.
pub proof fn lemma_round_weight_error(weight: int, precision: nat)
    requires
        MIN_PRECISION <= precision <= MAX_PRECISION,
    ensures
        -half_unit(precision) <= round_weight(weight, precision) * (2 * half_unit(precision))
            - weight <= half_unit(precision),
{
    let shift = (WEIGHT_FRACTION_BITS - precision) as nat;
    let half = half_unit(precision);
    let unit = pow2(shift) as int;
    lemma_pow2_adds((shift - 1) as nat, 1);
    lemma_pow2_pos((shift - 1) as nat);
    lemma2_to64();
    assert(unit == 2 * half);
    if weight >= 0 {
        let q = (weight + half) / unit;
        vstd::arithmetic::div_mod::lemma_fundamental_div_mod(weight + half, unit);
        vstd::arithmetic::div_mod::lemma_mod_bound(weight + half, unit);
        assert(q * unit == unit * q) by (nonlinear_arith);
    } else {
        let q = (-weight + half) / unit;
        vstd::arithmetic::div_mod::lemma_fundamental_div_mod(-weight + half, unit);
        vstd::arithmetic::div_mod::lemma_mod_bound(-weight + half, unit);
        assert((-q) * unit == -(unit * q)) by (nonlinear_arith);
    }
}

/// Rounding moves the sum of `n` weights by at most `n` half units of the last
/// place.
pub proof fn lemma_rounded_total_error(weights: Seq<int>, precision: nat, n: int)
    requires
        MIN_PRECISION <= precision <= MAX_PRECISION,
        0 <= n <= weights.len(),
    ensures
        -n * half_unit(precision) <= total(
            Seq::new(weights.len(), |k: int| round_weight(weights[k], precision)),
            n,
        ) * (2 * half_unit(precision)) - total(weights, n) <= n * half_unit(precision),
    decreases n,
{
    let rounded = Seq::new(weights.len(), |k: int| round_weight(weights[k], precision));
    let half = half_unit(precision);
    if n > 0 {
        lemma_rounded_total_error(weights, precision, n - 1);
        lemma_round_weight_error(weights[n - 1], precision);
        assert(rounded[n - 1] == round_weight(weights[n - 1], precision));
        assert((total(rounded, n - 1) + rounded[n - 1]) * (2 * half) == total(rounded, n - 1) * (2
            * half) + rounded[n - 1] * (2 * half)) by (nonlinear_arith);
        assert(n * half == (n - 1) * half + half) by (nonlinear_arith);
        assert(-n * half == -(n - 1) * half - half) by (nonlinear_arith);
    } else {
        assert(0 * half == 0);
        assert(0 * (2 * half) == 0);
    }
}

/// The normalized weights of a window add up to what the window added up to,
/// give or take half a unit of the last place per tap.
pub proof fn lemma_chunk_total(coeffs: Coefficients, precision: nat, i: int)
    requires
        MIN_PRECISION <= precision <= MAX_PRECISION,
        0 <= i < coeffs.bounds.len(),
    ensures
        ({
            let size = coeffs.bounds[i].size as int;
            let before = total(window_weights(coeffs, i), size);
            let after = total(normalized_chunk(coeffs, precision, i).weights, size);
            -size * half_unit(precision) <= after * (2 * half_unit(precision)) - before <= size
                * half_unit(precision)
        }),
{
    let size = coeffs.bounds[i].size as int;
    let weights = window_weights(coeffs, i);
    let rounded = Seq::new(weights.len(), |k: int| round_weight(weights[k], precision));
    lemma_rounded_total_error(weights, precision, size);
    assert(rounded =~= normalized_chunk(coeffs, precision, i).weights);
}

/// The normalized weights of a window of at most three taps that added up to
/// one add up to `2^precision`, give or take one.
///
/// Each weight is rounded by itself, so each tap can move the sum by half a
/// unit; from four taps on the halves can add up to more than one.
pub proof fn lemma_chunk_total_of_one(coeffs: Coefficients, precision: nat, i: int)
    requires
        MIN_PRECISION <= precision <= MAX_PRECISION,
        0 <= i < coeffs.bounds.len(),
        coeffs.bounds[i].size <= 3,
        total(window_weights(coeffs, i), coeffs.bounds[i].size as int) == WEIGHT_ONE,
    ensures
        -1 <= total(
            normalized_chunk(coeffs, precision, i).weights,
            coeffs.bounds[i].size as int,
        ) - pow2(precision) <= 1,
{
    let size = coeffs.bounds[i].size as int;
    let after = total(normalized_chunk(coeffs, precision, i).weights, size);
    let half = half_unit(precision);
    let shift = (WEIGHT_FRACTION_BITS - precision) as nat;
    lemma_chunk_total(coeffs, precision, i);
    lemma_pow2_adds((shift - 1) as nat, 1);
    lemma_pow2_adds(precision, shift);
    lemma_pow2_pos((shift - 1) as nat);
    lemma2_to64();
    lemma2_to64_rest();
    assert(WEIGHT_ONE == pow2(precision) * (2 * half));
    let unit = pow2(precision) as int;
    let d = after - unit;
    assert(d * (2 * half) == after * (2 * half) - unit * (2 * half)) by (nonlinear_arith)
        requires
            d == after - unit,
    ;
    assert(size * half <= 3 * half && -size * half >= -3 * half) by (nonlinear_arith)
        requires
            0 <= size <= 3,
            0 < half,
    ;
    assert(-1 <= d <= 1) by (nonlinear_arith)
        requires
            -3 * half <= d * (2 * half) <= 3 * half,
            0 < half,
    ;
}

/// Every window of `coeffs` is a single tap of weight one.
pub open spec fn is_identity_filter(coeffs: Coefficients) -> bool {
    &&& coeffs.window_size == 1
    &&& forall|i: int|
        0 <= i < coeffs.bounds.len() ==> (#[trigger] coeffs.bounds[i]).size == 1
            && coeffs.values[i] == WEIGHT_ONE
}

/// A horizontal pass whose every window is a single tap of weight one copies:
/// each destination pixel is the source pixel its window points at. With
/// window `x` at `x` and no row offset the destination is the source.
pub proof fn lemma_identity_horiz<P: Pixel>(
    src_image: TypedImageView<P>,
    dst_image: TypedImageViewMut<P>,
    offset: u32,
    coeffs: Coefficients,
    written: Seq<P>,
)
    requires
        src_image.wf(),
        dst_image.wf(),
        is_identity_filter(coeffs),
        horiz_outcome(src_image, dst_image, offset, coeffs, written, Ok(())),
    ensures
        forall|y: int, x: int|
            0 <= y < dst_image.spec_height() && 0 <= x < dst_image.spec_width()
                ==> #[trigger] rows_of(
                written,
                dst_image.spec_width(),
                dst_image.spec_height(),
            )[y][x] == src_image@[y + offset][coeffs.bounds[x].start as int],
{
    let width = dst_image.spec_width();
    let height = dst_image.spec_height();
    let out = rows_of(written, width, height);
    let p = chosen_precision(P::max_value(), coeffs.window_size as int).unwrap();
    let view = normalized(coeffs, p, P::max_value());
    lemma_chosen_precision_fits(P::max_value(), coeffs.window_size as int);
    lemma_round_one(p);
    src_image.lemma_shape();
    assert forall|y: int, x: int| 0 <= y < height && 0 <= x < width implies #[trigger] out[y][x]
        == src_image@[y + offset][coeffs.bounds[x].start as int] by {
        let row = src_image@[y + offset];
        let start = coeffs.bounds[x].start as int;
        assert(coeffs.bounds[x].size == 1 && coeffs.values[x] == WEIGHT_ONE);
        assert(x * 1 + 0 == x);
        assert(view.chunks[x].weights =~= seq![pow2(p) as int]);
        row[start].lemma_value_range();
        lemma_unit_window(samples(row), start, p, P::max_value());
        out[y][x].lemma_value_determines(row[start]);
    }
}

/// A vertical pass whose every window is a single tap of weight one copies:
/// each destination row is the source row its window points at.
pub proof fn lemma_identity_vert<P: Pixel>(
    src_image: TypedImageView<P>,
    dst_image: TypedImageViewMut<P>,
    coeffs: Coefficients,
    written: Seq<P>,
)
    requires
        src_image.wf(),
        dst_image.wf(),
        is_identity_filter(coeffs),
        vert_outcome(src_image, dst_image, coeffs, written, Ok(())),
    ensures
        forall|y: int, x: int|
            0 <= y < dst_image.spec_height() && 0 <= x < dst_image.spec_width()
                ==> #[trigger] rows_of(
                written,
                dst_image.spec_width(),
                dst_image.spec_height(),
            )[y][x] == src_image@[coeffs.bounds[y].start as int][x],
{
    let width = dst_image.spec_width();
    let height = dst_image.spec_height();
    let out = rows_of(written, width, height);
    let p = chosen_precision(P::max_value(), coeffs.window_size as int).unwrap();
    let view = normalized(coeffs, p, P::max_value());
    lemma_chosen_precision_fits(P::max_value(), coeffs.window_size as int);
    lemma_round_one(p);
    src_image.lemma_shape();
    assert forall|y: int, x: int| 0 <= y < height && 0 <= x < width implies #[trigger] out[y][x]
        == src_image@[coeffs.bounds[y].start as int][x] by {
        let start = coeffs.bounds[y].start as int;
        let down = column(src_image@, x);
        assert(coeffs.bounds[y].size == 1 && coeffs.values[y] == WEIGHT_ONE);
        assert(y * 1 + 0 == y);
        assert(view.chunks[y].weights =~= seq![pow2(p) as int]);
        src_image@[start][x].lemma_value_range();
        lemma_unit_window(down, start, p, P::max_value());
        out[y][x].lemma_value_determines(src_image@[start][x]);
    }
}

} // verus!
