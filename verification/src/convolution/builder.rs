//! From a filter kernel to the windows and weights of one axis.
//!
//! Positions along the axis are exact fractions; kernel arguments and weights
//! are fixed-point numbers with 52 fractional bits. Destination index `i`
//! looks at the source around the centre `(i + 1/2) * in_size / out_size`,
//! as far as the support of the kernel reaches once it is stretched by the
//! scale of a reduction.
use super::optimisations::layout_ok;
use super::theorems::{total, window_weights};
use super::{Bound, Coefficients, ContractViolation, WEIGHT_ONE};
use crate::image_view::lemma_row_range;
use vstd::prelude::*;

verus! {

/// The larger of the two sizes: the scale of the filter times `out_size`.
pub open spec fn larger(in_size: int, out_size: int) -> int {
    if in_size >= out_size {
        in_size
    } else {
        out_size
    }
}

/// `n / d` rounded to the nearest integer, halves away from zero.
pub open spec fn round_half_away(n: int, d: int) -> int
    recommends
        d > 0,
{
    if n >= 0 {
        (2 * n + d) / (2 * d)
    } else {
        -((-2 * n + d) / (2 * d))
    }
}

/// `v` brought into the range of a signed 64-bit integer.
pub open spec fn saturate_i64(v: int) -> int {
    if v < i64::MIN {
        i64::MIN as int
    } else if v > i64::MAX {
        i64::MAX as int
    } else {
        v
    }
}

/// The centre of destination index `i`, in source samples, times
/// `2 * out_size`.
pub open spec fn centre_numerator(in_size: int, i: int) -> int {
    (2 * i + 1) * in_size
}

/// The source index the centre of destination index `i` falls on.
pub open spec fn nearest_index(in_size: int, out_size: int, i: int) -> int {
    centre_numerator(in_size, i) / (2 * out_size)
}

/// The denominator the ends of an ideal window are fractions of.
pub open spec fn span_denominator(out_size: int) -> int {
    2 * out_size * WEIGHT_ONE
}

/// The radius of the stretched kernel, in source samples, times
/// `span_denominator`.
pub open spec fn radius_numerator(in_size: int, out_size: int, support: int) -> int {
    2 * support * larger(in_size, out_size)
}

/// The first source index of the ideal window of destination index `i`:
/// `centre - radius`, rounded down.
pub open spec fn ideal_start(in_size: int, out_size: int, support: int, i: int) -> int {
    (centre_numerator(in_size, i) * WEIGHT_ONE - radius_numerator(in_size, out_size, support))
        / span_denominator(out_size)
}

/// One past the last source index of the ideal window of destination index
/// `i`: `centre + radius`, rounded up.
pub open spec fn ideal_end(in_size: int, out_size: int, support: int, i: int) -> int {
    (centre_numerator(in_size, i) * WEIGHT_ONE + radius_numerator(in_size, out_size, support)
        + span_denominator(out_size) - 1) / span_denominator(out_size)
}

/// The window of destination index `i`: the ideal window clipped to the
/// source, or the single sample under the centre where nothing is left of it.
pub open spec fn clipped_span(in_size: int, out_size: int, support: int, i: int) -> (int, int) {
    let start = if ideal_start(in_size, out_size, support, i) < 0 {
        0
    } else {
        ideal_start(in_size, out_size, support, i)
    };
    let end = if ideal_end(in_size, out_size, support, i) > in_size {
        in_size
    } else {
        ideal_end(in_size, out_size, support, i)
    };
    if start < end {
        (start, end - start)
    } else {
        (nearest_index(in_size, out_size, i), 1)
    }
}

/// Where the kernel is evaluated for source index `x` and destination index
/// `i`: the distance of the middle of the sample from the centre, in units of
/// the stretched kernel, as a fixed-point number.
pub open spec fn kernel_argument(in_size: int, out_size: int, i: int, x: int) -> int {
    saturate_i64(
        round_half_away(
            ((2 * x + 1) * out_size - centre_numerator(in_size, i)) * WEIGHT_ONE,
            2 * larger(in_size, out_size),
        ),
    )
}

/// A raw weight divided by the sum of its window, as a fixed-point number.
pub open spec fn normalized_weight(raw: int, sum: int) -> int
    recommends
        sum != 0,
{
    if sum > 0 {
        round_half_away(raw * WEIGHT_ONE, sum)
    } else {
        round_half_away(-raw * WEIGHT_ONE, -sum)
    }
}

/// The entries of `raw` as mathematical integers.
pub open spec fn raw_weights(raw: Seq<i64>) -> Seq<int> {
    Seq::new(raw.len(), |k: int| raw[k] as int)
}

/// `n / d`, rounded to nearest, halves away from zero.
pub fn rounded_quotient(n: i128, d: i128) -> (q: i128)
    requires
        0 < d <= 0x100_0000_0000_0000_0000_0000_0000_0000,
        -0x100_0000_0000_0000_0000_0000_0000_0000 <= n <= 0x100_0000_0000_0000_0000_0000_0000_0000,
    ensures
        q == round_half_away(n as int, d as int),
        -0x300_0000_0000_0000_0000_0000_0000_0000 <= q <= 0x300_0000_0000_0000_0000_0000_0000_0000,
{
    let size: u128 = if n >= 0 {
        n as u128
    } else {
        (-n) as u128
    };
    let divisor: u128 = 2 * (d as u128);
    let q: u128 = (2 * size + d as u128) / divisor;
    proof {
        vstd::arithmetic::div_mod::lemma_div_is_ordered_by_denominator(
            (2 * size + d) as int,
            2,
            divisor as int,
        );
    }
    if n >= 0 {
        q as i128
    } else {
        -(q as i128)
    }
}

/// The window of destination index `i` of an axis that is resampled from
/// `in_size` to `out_size` samples with a kernel of radius `support`.
pub fn window_bound(in_size: u32, out_size: u32, support: i64, i: u32) -> (bound: Bound)
    requires
        0 < in_size,
        i < out_size,
        0 <= support,
    ensures
        (bound.start as int, bound.size as int) == clipped_span(
            in_size as int,
            out_size as int,
            support as int,
            i as int,
        ),
        1 <= bound.size,
        bound.start + bound.size <= in_size,
{
    let larger: u32 = if in_size >= out_size {
        in_size
    } else {
        out_size
    };
    proof {
        assert(0 <= (2 * i + 1) * in_size <= 0x1_FFFF_FFFF * 0xFFFF_FFFF) by (nonlinear_arith)
            requires
                0 <= i <= 0xFFFF_FFFF,
                0 <= in_size <= 0xFFFF_FFFF,
        ;
    }
    let centre: u128 = (2 * (i as u128) + 1) * (in_size as u128);
    proof {
        assert(0 <= 2 * support * larger <= 2 * 0x7FFF_FFFF_FFFF_FFFF * 0xFFFF_FFFF)
            by (nonlinear_arith)
            requires
                0 <= support <= 0x7FFF_FFFF_FFFF_FFFF,
                0 <= larger <= 0xFFFF_FFFF,
        ;
        assert(centre * WEIGHT_ONE <= (0x1_FFFF_FFFF * 0xFFFF_FFFF) * WEIGHT_ONE)
            by (nonlinear_arith)
            requires
                0 <= centre <= 0x1_FFFF_FFFF * 0xFFFF_FFFF,
        ;
        assert(0 < 2 * out_size * WEIGHT_ONE <= 2 * 0xFFFF_FFFF * WEIGHT_ONE)
            by (nonlinear_arith)
            requires
                0 < out_size <= 0xFFFF_FFFF,
        ;
    }
    let middle: u128 = centre * (WEIGHT_ONE as u128);
    let radius: u128 = 2 * (support as u128) * (larger as u128);
    let denominator: u128 = 2 * (out_size as u128) * (WEIGHT_ONE as u128);
    let start: u128 = if middle <= radius {
        0
    } else {
        (middle - radius) / denominator
    };
    proof {
        let low = middle - radius;
        if low < 0 {
            super::lemmas::lemma_negative_quotient(low, denominator as int);
        }
    }
    let high: u128 = middle + radius + denominator - 1;
    let ideal_end: u128 = high / denominator;
    let end: u128 = if ideal_end > in_size as u128 {
        in_size as u128
    } else {
        ideal_end
    };
    if start < end {
        Bound { start: start as u32, size: (end - start) as u32 }
    } else {
        Bound { start: centre_index(in_size, out_size, i), size: 1 }
    }
}

/// Evaluates `kernel_argument`.
pub fn filter_argument(in_size: u32, out_size: u32, i: u32, x: u32) -> (arg: i64)
    requires
        0 < in_size,
    ensures
        arg == kernel_argument(in_size as int, out_size as int, i as int, x as int),
{
    let larger: u32 = if in_size >= out_size {
        in_size
    } else {
        out_size
    };
    proof {
        assert(0 <= (2 * x + 1) * out_size <= 0x1_FFFF_FFFF * 0xFFFF_FFFF) by (nonlinear_arith)
            requires
                0 <= x <= 0xFFFF_FFFF,
                0 <= out_size <= 0xFFFF_FFFF,
        ;
        assert(0 <= (2 * i + 1) * in_size <= 0x1_FFFF_FFFF * 0xFFFF_FFFF) by (nonlinear_arith)
            requires
                0 <= i <= 0xFFFF_FFFF,
                0 <= in_size <= 0xFFFF_FFFF,
        ;
    }
    let sample: i128 = (2 * (x as i128) + 1) * (out_size as i128);
    let centre: i128 = (2 * (i as i128) + 1) * (in_size as i128);
    let distance: i128 = sample - centre;
    proof {
        assert(-0x2_0000_0000_0000_0000 * WEIGHT_ONE <= distance * WEIGHT_ONE
            <= 0x2_0000_0000_0000_0000 * WEIGHT_ONE) by (nonlinear_arith)
            requires
                -0x2_0000_0000_0000_0000 <= distance <= 0x2_0000_0000_0000_0000,
        ;
    }
    let q: i128 = rounded_quotient(distance * (WEIGHT_ONE as i128), 2 * (larger as i128));
    if q < -0x8000_0000_0000_0000 {
        -0x8000_0000_0000_0000
    } else if q > 0x7FFF_FFFF_FFFF_FFFF {
        0x7FFF_FFFF_FFFF_FFFF
    } else {
        q as i64
    }
}

/// Evaluates `nearest_index`.
pub fn centre_index(in_size: u32, out_size: u32, i: u32) -> (x: u32)
    requires
        i < out_size,
    ensures
        x == nearest_index(in_size as int, out_size as int, i as int),
        in_size > 0 ==> x < in_size,
{
    proof {
        assert(0 <= (2 * i + 1) * in_size <= 0x1_FFFF_FFFF * 0xFFFF_FFFF) by (nonlinear_arith)
            requires
                0 <= i <= 0xFFFF_FFFF,
                0 <= in_size <= 0xFFFF_FFFF,
        ;
    }
    let centre: u128 = (2 * (i as u128) + 1) * (in_size as u128);
    proof {
        if in_size > 0 {
            assert(centre < (2 * out_size) * in_size) by (nonlinear_arith)
                requires
                    centre == (2 * i + 1) * in_size,
                    0 <= i < out_size,
                    0 < in_size,
            ;
            vstd::arithmetic::div_mod::lemma_multiply_divide_lt(
                centre as int,
                2 * out_size,
                in_size as int,
            );
        } else {
            assert(centre == 0) by (nonlinear_arith)
                requires
                    centre == (2 * i + 1) * in_size,
                    in_size == 0,
            ;
        }
    }
    (centre / (2 * (out_size as u128))) as u32
}

/// Rounding a quotient moves it, times the divisor, by at most half the
/// divisor.
pub proof fn lemma_round_half_away_error(n: int, d: int)
    requires
        0 < d,
    ensures
        -d <= 2 * (round_half_away(n, d) * d - n) <= d,
{
    if n >= 0 {
        let q = (2 * n + d) / (2 * d);
        vstd::arithmetic::div_mod::lemma_fundamental_div_mod(2 * n + d, 2 * d);
        vstd::arithmetic::div_mod::lemma_mod_bound(2 * n + d, 2 * d);
        assert((2 * d) * q == 2 * (q * d)) by (nonlinear_arith);
    } else {
        let q = (-2 * n + d) / (2 * d);
        vstd::arithmetic::div_mod::lemma_fundamental_div_mod(-2 * n + d, 2 * d);
        vstd::arithmetic::div_mod::lemma_mod_bound(-2 * n + d, 2 * d);
        assert((2 * d) * q == 2 * (q * d)) by (nonlinear_arith);
        assert((-q) * d == -(q * d)) by (nonlinear_arith);
    }
}

/// The weights of a window, each divided by the sum of all.
pub open spec fn normalized_window(raw: Seq<int>) -> Seq<int> {
    Seq::new(raw.len(), |k: int| normalized_weight(raw[k], total(raw, raw.len() as int)))
}

/// Whether a window can be normalized: its weights do not cancel, and each
/// fits 64 bits once divided by their sum.
pub open spec fn can_normalize(raw: Seq<int>) -> bool {
    &&& total(raw, raw.len() as int) != 0
    &&& forall|k: int|
        0 <= k < raw.len() ==> i64::MIN <= #[trigger] normalized_window(raw)[k] <= i64::MAX
}

/// Dividing the first `n` weights of a window by the sum of all brings their
/// own sum to their share of one, give or take half a unit of the last place
/// per weight.
pub proof fn lemma_normalized_prefix(raw: Seq<int>, n: int)
    requires
        0 <= n <= raw.len(),
        total(raw, raw.len() as int) != 0,
    ensures
        ({
            let sum = total(raw, raw.len() as int);
            let size = if sum > 0 {
                sum
            } else {
                -sum
            };
            let share = if sum > 0 {
                total(raw, n)
            } else {
                -total(raw, n)
            };
            -n * size <= 2 * (total(normalized_window(raw), n) * size - share * WEIGHT_ONE) <= n
                * size
        }),
    decreases n,
{
    let sum = total(raw, raw.len() as int);
    let size = if sum > 0 {
        sum
    } else {
        -sum
    };
    let weights = normalized_window(raw);
    if n > 0 {
        lemma_normalized_prefix(raw, n - 1);
        let r = raw[n - 1];
        let a = if sum > 0 {
            r * WEIGHT_ONE
        } else {
            -r * WEIGHT_ONE
        };
        lemma_round_half_away_error(a, size);
        assert(weights[n - 1] == round_half_away(a, size));
        let before = total(weights, n - 1);
        let w = weights[n - 1];
        assert((before + w) * size == before * size + w * size) by (nonlinear_arith);
        assert((total(raw, n - 1) + r) * WEIGHT_ONE == total(raw, n - 1) * WEIGHT_ONE + r
            * WEIGHT_ONE) by (nonlinear_arith);
        assert((-(total(raw, n - 1) + r)) * WEIGHT_ONE == (-total(raw, n - 1)) * WEIGHT_ONE + (-r)
            * WEIGHT_ONE) by (nonlinear_arith);
        assert(n * size == (n - 1) * size + size) by (nonlinear_arith);
        assert(-n * size == -(n - 1) * size - size) by (nonlinear_arith);
    } else {
        assert(0 * size == 0);
        assert(0 * WEIGHT_ONE == 0);
    }
}

/// The weights of a normalized window add up to one, give or take half a
/// unit of the last place per tap. A single tap has weight one exactly.
pub proof fn lemma_normalized_total(raw: Seq<int>)
    requires
        total(raw, raw.len() as int) != 0,
    ensures
        -raw.len() <= 2 * (total(normalized_window(raw), raw.len() as int) - WEIGHT_ONE)
            <= raw.len(),
        raw.len() == 1 ==> normalized_window(raw)[0] == WEIGHT_ONE,
{
    let n = raw.len() as int;
    let sum = total(raw, n);
    let size = if sum > 0 {
        sum
    } else {
        -sum
    };
    let t = total(normalized_window(raw), n);
    lemma_normalized_prefix(raw, n);
    assert(2 * (t * size - size * WEIGHT_ONE) == (2 * (t - WEIGHT_ONE)) * size)
        by (nonlinear_arith);
    assert(-n <= 2 * (t - WEIGHT_ONE) <= n) by (nonlinear_arith)
        requires
            -n * size <= (2 * (t - WEIGHT_ONE)) * size <= n * size,
            0 < size,
    ;
    if n == 1 {
        reveal_with_fuel(total, 2);
    }
}

/// Adds up a window.
pub fn window_total(raw: &[i64]) -> (sum: i128)
    requires
        raw@.len() <= u32::MAX,
    ensures
        sum == total(raw_weights(raw@), raw@.len() as int),
        -0x8000_0000_0000_0000 * raw@.len() <= sum <= 0x8000_0000_0000_0000 * raw@.len(),
{
    let n: usize = raw.len();
    let mut sum: i128 = 0;
    let mut k: usize = 0;
    while k < n
        invariant
            k <= n,
            n == raw@.len(),
            n <= u32::MAX,
            sum == total(raw_weights(raw@), k as int),
            -0x8000_0000_0000_0000 * k <= sum <= 0x8000_0000_0000_0000 * k,
        decreases n - k,
    {
        sum = sum + raw[k] as i128;
        k += 1;
    }
    sum
}

/// Divides every weight of a window by the sum of all. `None` where the
/// weights cancel, or where a quotient does not fit 64 bits.
pub fn normalize_window(raw: &[i64]) -> (r: Option<Vec<i64>>)
    requires
        raw@.len() <= u32::MAX,
    ensures
        r is Some <==> can_normalize(raw_weights(raw@)),
        r matches Some(weights) ==> raw_weights(weights@) == normalized_window(raw_weights(raw@)),
{
    let ghost given = raw_weights(raw@);
    let n: usize = raw.len();
    let sum: i128 = window_total(raw);
    if sum == 0 {
        return None;
    }
    let size: i128 = if sum > 0 {
        sum
    } else {
        -sum
    };
    let mut weights: Vec<i64> = Vec::new();
    let mut k: usize = 0;
    while k < n
        invariant
            k <= n,
            n == raw@.len(),
            given == raw_weights(raw@),
            sum == total(given, n as int),
            sum != 0,
            size == if sum > 0 {
                sum as int
            } else {
                -sum
            },
            0 < size <= 0x8000_0000_0000_0000 * 0xFFFF_FFFF,
            weights@.len() == k,
            forall|j: int| 0 <= j < k ==> #[trigger] weights@[j] == normalized_window(given)[j],
        decreases n - k,
    {
        let r: i64 = raw[k];
        proof {
            assert(-0x8000_0000_0000_0000 * WEIGHT_ONE <= r * WEIGHT_ONE <= 0x8000_0000_0000_0000
                * WEIGHT_ONE) by (nonlinear_arith)
                requires
                    -0x8000_0000_0000_0000 <= r <= 0x7FFF_FFFF_FFFF_FFFF,
            ;
            assert((-r) * WEIGHT_ONE == -(r * WEIGHT_ONE)) by (nonlinear_arith);
        }
        let scaled: i128 = (r as i128) * (WEIGHT_ONE as i128);
        let q: i128 = rounded_quotient(
            if sum > 0 {
                scaled
            } else {
                -scaled
            },
            size,
        );
        proof {
            assert(q == normalized_window(given)[k as int]);
        }
        if q < -0x8000_0000_0000_0000 || q > 0x7FFF_FFFF_FFFF_FFFF {
            return None;
        }
        weights.push(q as i64);
        k += 1;
    }
    proof {
        assert(raw_weights(weights@) =~= normalized_window(given));
    }
    Some(weights)
}

/// Entry `k` of window `i` of a flat layout with `window_size` entries per
/// window.
pub open spec fn entry(values: Seq<i64>, window_size: int, i: int, k: int) -> int {
    values[i * window_size + k] as int
}

/// Lays windows out one after the other, each filled up with zeros to
/// `window_size` entries. `None` where that is more entries than can be
/// addressed.
pub fn flatten_windows(windows: &Vec<Vec<i64>>, window_size: usize) -> (r: Option<Vec<i64>>)
    requires
        forall|i: int| 0 <= i < windows@.len() ==> (#[trigger] windows@[i])@.len() <= window_size,
    ensures
        r is Some <==> windows@.len() * window_size <= usize::MAX,
        r matches Some(values) ==> {
            &&& values@.len() == windows@.len() * window_size
            &&& forall|i: int, k: int|
                0 <= i < windows@.len() && 0 <= k < window_size ==> #[trigger] entry(
                    values@,
                    window_size as int,
                    i,
                    k,
                ) == if k < windows@[i]@.len() {
                    windows@[i]@[k] as int
                } else {
                    0
                }
        },
{
    let count: usize = windows.len();
    let length: usize = match count.checked_mul(window_size) {
        Some(length) => length,
        None => {
            return None;
        },
    };
    let mut values: Vec<i64> = Vec::with_capacity(length);
    let mut i: usize = 0;
    while i < count
        invariant
            i <= count,
            count == windows@.len(),
            length == count * window_size,
            forall|j: int|
                0 <= j < windows@.len() ==> (#[trigger] windows@[j])@.len() <= window_size,
            values@.len() == i * window_size,
            forall|j: int, k: int|
                0 <= j < i && 0 <= k < window_size ==> #[trigger] entry(
                    values@,
                    window_size as int,
                    j,
                    k,
                ) == if k < windows@[j]@.len() {
                    windows@[j]@[k] as int
                } else {
                    0
                },
        decreases count - i,
    {
        let window: &Vec<i64> = &windows[i];
        let taps: usize = window.len();
        let ghost before = values@;
        proof {
            lemma_row_range(window_size as nat, count as nat, i as int);
        }
        let mut k: usize = 0;
        while k < window_size
            invariant
                k <= window_size,
                taps == window@.len(),
                taps <= window_size,
                i < count,
                length == count * window_size,
                (i + 1) * window_size <= count * window_size,
                (i + 1) * window_size == i * window_size + window_size,
                0 <= i * window_size,
                before.len() == i * window_size,
                values@.len() == i * window_size + k,
                values@.take(i * window_size) == before,
                forall|m: int|
                    0 <= m < k ==> #[trigger] values@[i * window_size + m] == if m < taps {
                        window@[m]
                    } else {
                        0
                    },
            decreases window_size - k,
        {
            let ghost old_values = values@;
            if k < taps {
                values.push(window[k]);
            } else {
                values.push(0);
            }
            proof {
                assert(values@.take(i * window_size) =~= old_values.take(i * window_size));
            }
            k += 1;
        }
        proof {
            assert forall|j: int, m: int|
                0 <= j < i + 1 && 0 <= m < window_size implies #[trigger] entry(
                values@,
                window_size as int,
                j,
                m,
            ) == if m < windows@[j]@.len() {
                windows@[j]@[m] as int
            } else {
                0
            } by {
                if j < i {
                    lemma_row_range(window_size as nat, i as nat, j);
                    assert(values@[j * window_size + m] == values@.take(i * window_size)[j
                        * window_size + m]);
                    assert(entry(before, window_size as int, j, m) == if m < windows@[j]@.len() {
                        windows@[j]@[m] as int
                    } else {
                        0
                    });
                }
            }
        }
        i += 1;
    }
    Some(values)
}

/// Whether `raw` can be what the kernel returned for the taps of window `i`,
/// evaluated at the argument of each tap in ascending source order.
pub open spec fn is_kernel_output<F: Fn(i64) -> i64>(
    filter: F,
    in_size: int,
    out_size: int,
    support: int,
    i: int,
    raw: Seq<i64>,
) -> bool {
    let span = clipped_span(in_size, out_size, support, i);
    &&& raw.len() == span.1
    &&& forall|k: int|
        0 <= k < raw.len() ==> call_ensures(
            filter,
            (kernel_argument(in_size, out_size, i, span.0 + k) as i64,),
            #[trigger] raw[k],
        )
}

/// Whether `bound` and `weights` are what the builder makes of a window
/// `span` with the kernel weights `raw`: the window with every weight
/// divided by their sum, or, where the weights cancel, the single sample
/// `nearest` with a weight of one.
pub open spec fn is_settled(
    bound: Bound,
    weights: Seq<int>,
    span: (int, int),
    nearest: int,
    raw: Seq<int>,
) -> bool {
    if total(raw, raw.len() as int) == 0 {
        &&& bound.start == nearest
        &&& bound.size == 1
        &&& weights == seq![WEIGHT_ONE as int]
    } else {
        &&& bound.start == span.0
        &&& bound.size == span.1
        &&& weights == normalized_window(raw)
    }
}

/// Settles a window: `span` with the kernel weights `raw` divided by their
/// sum, or the single sample `nearest` with a weight of one where the
/// weights cancel. `None` where a weight does not fit 64 bits once divided.
pub fn settle_window(span: Bound, nearest: u32, raw: &[i64]) -> (r: Option<(Bound, Vec<i64>)>)
    requires
        raw@.len() == span.size,
    ensures
        r is None <==> total(raw_weights(raw@), raw@.len() as int) != 0 && !can_normalize(
            raw_weights(raw@),
        ),
        r matches Some((bound, weights)) ==> {
            &&& is_settled(
                bound,
                raw_weights(weights@),
                (span.start as int, span.size as int),
                nearest as int,
                raw_weights(raw@),
            )
            &&& weights@.len() == bound.size
            &&& -bound.size <= 2 * (total(raw_weights(weights@), bound.size as int) - WEIGHT_ONE)
                <= bound.size
        },
{
    if window_total(raw) == 0 {
        let mut single: Vec<i64> = Vec::new();
        single.push(WEIGHT_ONE);
        proof {
            assert(raw_weights(single@) =~= seq![WEIGHT_ONE as int]);
            reveal_with_fuel(total, 2);
        }
        Some((Bound { start: nearest, size: 1 }, single))
    } else {
        match normalize_window(raw) {
            Some(weights) => {
                proof {
                    assert(raw_weights(weights@).len() == normalized_window(
                        raw_weights(raw@),
                    ).len());
                    lemma_normalized_total(raw_weights(raw@));
                }
                Some((span, weights))
            },
            None => None,
        }
    }
}

/// Whether window `i` of `coeffs` is what the builder makes of the kernel
/// weights `raw`, with zeros past its last tap.
pub open spec fn is_built_window(
    coeffs: Coefficients,
    in_size: int,
    out_size: int,
    support: int,
    i: int,
    raw: Seq<int>,
) -> bool {
    &&& is_settled(
        coeffs.bounds[i],
        window_weights(coeffs, i),
        clipped_span(in_size, out_size, support, i),
        nearest_index(in_size, out_size, i),
        raw,
    )
    &&& forall|k: int|
        coeffs.bounds[i].size <= k < coeffs.window_size ==> #[trigger] entry(
            coeffs.values@,
            coeffs.window_size as int,
            i,
            k,
        ) == 0
}

/// Whether window `i` of `coeffs` is what the builder makes of the kernel
/// `filter`: of some weights that the kernel can return for the taps of the
/// window.
pub open spec fn is_built_from<F: Fn(i64) -> i64>(
    coeffs: Coefficients,
    filter: F,
    in_size: int,
    out_size: int,
    support: int,
    i: int,
) -> bool {
    exists|raw: Seq<i64>|
        is_kernel_output(filter, in_size, out_size, support, i, raw) && #[trigger] is_built_window(
            coeffs,
            in_size,
            out_size,
            support,
            i,
            raw_weights(raw),
        )
}

/// What every set of coefficients off the builder has: one window per
/// destination index, laid out uniformly; in every window at least one tap,
/// none of them outside the source, and weights that add up to one, give or
/// take half a unit of the last place per tap; and for `window_size` the
/// length of the longest window.
pub open spec fn is_well_built(coeffs: Coefficients, in_size: int, out_size: int) -> bool {
    &&& coeffs.bounds.len() == out_size
    &&& layout_ok(coeffs)
    &&& forall|i: int|
        0 <= i < out_size ==> 1 <= (#[trigger] coeffs.bounds[i]).size && coeffs.bounds[i].start
            + coeffs.bounds[i].size <= in_size
    &&& forall|i: int|
        0 <= i < out_size ==> -coeffs.bounds[i].size <= 2 * (#[trigger] total(
            window_weights(coeffs, i),
            coeffs.bounds[i].size as int,
        ) - WEIGHT_ONE) <= coeffs.bounds[i].size
    &&& exists|i: int| 0 <= i < out_size && (#[trigger] coeffs.bounds[i]).size == coeffs.window_size
}

/// The weights of every window off the builder add up to one to within one
/// part in a million, and the weight of a window of one tap is one.
pub proof fn lemma_built_windows_sum_to_one(
    coeffs: Coefficients,
    in_size: int,
    out_size: int,
    i: int,
)
    requires
        is_well_built(coeffs, in_size, out_size),
        0 <= i < out_size,
    ensures
        -WEIGHT_ONE <= 1_000_000 * (total(
            window_weights(coeffs, i),
            coeffs.bounds[i].size as int,
        ) - WEIGHT_ONE) <= WEIGHT_ONE,
        coeffs.bounds[i].size == 1 ==> window_weights(coeffs, i)[0] == WEIGHT_ONE,
{
    if coeffs.bounds[i].size == 1 {
        reveal_with_fuel(total, 2);
    }
}

/// The windows and weights of one axis that is resampled from `in_size` to
/// `out_size` samples with the kernel `filter` of radius `filter_support`.
///
/// The kernel is asked once per tap, in the order of the windows and, inside
/// a window, of the source.
pub fn precompute_coefficients<F: Fn(i64) -> i64>(
    in_size: u32,
    out_size: u32,
    filter: F,
    filter_support: i64,
) -> (r: Result<Coefficients, ContractViolation>)
    requires
        forall|x: i64| call_requires(filter, (x,)),
    ensures
        match r {
            Ok(coeffs) => {
                &&& 0 < in_size
                &&& 0 < out_size
                &&& 0 <= filter_support
                &&& is_well_built(coeffs, in_size as int, out_size as int)
                &&& forall|i: int|
                    0 <= i < out_size ==> #[trigger] is_built_from(
                        coeffs,
                        filter,
                        in_size as int,
                        out_size as int,
                        filter_support as int,
                        i,
                    )
            },
            Err(e) => {
                &&& e == ContractViolation::EmptyAxis <==> in_size == 0 || out_size == 0
                &&& e == ContractViolation::NegativeSupport <==> in_size > 0 && out_size > 0
                    && filter_support < 0
                &&& e == ContractViolation::TooLarge ==> in_size * out_size > usize::MAX
                &&& e == ContractViolation::WeightOutOfRange ==> exists|i: int, raw: Seq<i64>|
                    0 <= i < out_size && #[trigger] is_kernel_output(
                        filter,
                        in_size as int,
                        out_size as int,
                        filter_support as int,
                        i,
                        raw,
                    ) && total(raw_weights(raw), raw.len() as int) != 0 && !can_normalize(
                        raw_weights(raw),
                    )
                &&& e == ContractViolation::EmptyAxis || e == ContractViolation::NegativeSupport
                    || e == ContractViolation::TooLarge || e
                    == ContractViolation::WeightOutOfRange
            },
        },
{
    if in_size == 0 || out_size == 0 {
        return Err(ContractViolation::EmptyAxis);
    }
    if filter_support < 0 {
        return Err(ContractViolation::NegativeSupport);
    }
    let mut bounds: Vec<Bound> = Vec::new();
    let mut windows: Vec<Vec<i64>> = Vec::new();
    let mut window_size: u32 = 0;
    let ghost mut raws: Seq<Seq<i64>> = Seq::empty();
    let ghost mut longest: int = 0;
    let mut i: u32 = 0;
    while i < out_size
        invariant
            i <= out_size,
            0 < in_size,
            0 <= filter_support,
            forall|x: i64| call_requires(filter, (x,)),
            bounds@.len() == windows@.len() == raws.len() == i,
            window_size <= in_size,
            i == 0 ==> window_size == 0,
            i > 0 ==> 0 <= longest < i && bounds@[longest].size == window_size,
            forall|j: int|
                0 <= j < i ==> 1 <= (#[trigger] bounds@[j]).size <= window_size && bounds@[j].start
                    + bounds@[j].size <= in_size,
            forall|j: int| 0 <= j < i ==> (#[trigger] windows@[j])@.len() == bounds@[j].size,
            forall|j: int|
                0 <= j < i ==> -bounds@[j].size <= 2 * (total(
                    raw_weights((#[trigger] windows@[j])@),
                    bounds@[j].size as int,
                ) - WEIGHT_ONE) <= bounds@[j].size,
            forall|j: int|
                0 <= j < i ==> is_kernel_output(
                    filter,
                    in_size as int,
                    out_size as int,
                    filter_support as int,
                    j,
                    #[trigger] raws[j],
                ),
            forall|j: int|
                0 <= j < i ==> is_settled(
                    #[trigger] bounds@[j],
                    raw_weights(windows@[j]@),
                    clipped_span(in_size as int, out_size as int, filter_support as int, j),
                    nearest_index(in_size as int, out_size as int, j),
                    raw_weights(raws[j]),
                ),
        decreases out_size - i,
    {
        let span: Bound = window_bound(in_size, out_size, filter_support, i);
        let mut raw: Vec<i64> = Vec::new();
        let mut k: u32 = 0;
        while k < span.size
            invariant
                k <= span.size,
                0 < in_size,
                span.start + span.size <= in_size,
                (span.start as int, span.size as int) == clipped_span(
                    in_size as int,
                    out_size as int,
                    filter_support as int,
                    i as int,
                ),
                forall|x: i64| call_requires(filter, (x,)),
                raw@.len() == k,
                forall|m: int|
                    0 <= m < k ==> call_ensures(
                        filter,
                        (kernel_argument(in_size as int, out_size as int, i as int, span.start + m)
                            as i64,),
                        #[trigger] raw@[m],
                    ),
            decreases span.size - k,
        {
            let argument: i64 = filter_argument(in_size, out_size, i, span.start + k);
            raw.push(filter(argument));
            k += 1;
        }
        proof {
            assert(is_kernel_output(
                filter,
                in_size as int,
                out_size as int,
                filter_support as int,
                i as int,
                raw@,
            ));
            assert(raw_weights(raw@).len() == raw@.len());
        }
        let nearest: u32 = centre_index(in_size, out_size, i);
        let (bound, window) = match settle_window(span, nearest, raw.as_slice()) {
            Some(settled) => settled,
            None => {
                return Err(ContractViolation::WeightOutOfRange);
            },
        };
        proof {
            raws = raws.push(raw@);
        }
        if bound.size > window_size {
            window_size = bound.size;
            proof {
                longest = i as int;
            }
        }
        bounds.push(bound);
        windows.push(window);
        i += 1;
    }
    let values: Vec<i64> = match flatten_windows(&windows, window_size as usize) {
        Some(values) => values,
        None => {
            proof {
                assert(out_size * window_size <= out_size * in_size) by (nonlinear_arith)
                    requires
                        window_size <= in_size,
                        0 <= out_size,
                ;
                assert(in_size * out_size == out_size * in_size) by (nonlinear_arith);
            }
            return Err(ContractViolation::TooLarge);
        },
    };
    let coeffs = Coefficients { values, window_size: window_size as usize, bounds };
    proof {
        assert(coeffs.window_size * coeffs.bounds.len() == windows@.len() * window_size)
            by (nonlinear_arith)
            requires
                coeffs.window_size == window_size,
                coeffs.bounds.len() == windows@.len(),
        ;
        assert forall|j: int| 0 <= j < out_size implies raw_weights(windows@[j]@)
            == #[trigger] window_weights(coeffs, j) by {
            lemma_row_range(window_size as nat, out_size as nat, j);
            assert forall|k: int| 0 <= k < coeffs.bounds[j].size implies windows@[j]@[k]
                == coeffs.values[j * coeffs.window_size + k] by {
                assert(entry(coeffs.values@, window_size as int, j, k) == windows@[j]@[k]);
            }
            assert(raw_weights(windows@[j]@) =~= window_weights(coeffs, j));
        }
        assert forall|j: int| 0 <= j < out_size implies #[trigger] is_built_from(
            coeffs,
            filter,
            in_size as int,
            out_size as int,
            filter_support as int,
            j,
        ) by {
            assert(raw_weights(windows@[j]@) == window_weights(coeffs, j));
            assert(is_kernel_output(
                filter,
                in_size as int,
                out_size as int,
                filter_support as int,
                j,
                raws[j],
            ));
            assert(is_built_window(
                coeffs,
                in_size as int,
                out_size as int,
                filter_support as int,
                j,
                raw_weights(raws[j]),
            ));
        }
        assert forall|j: int| 0 <= j < out_size implies -coeffs.bounds[j].size <= 2 * (
        #[trigger] total(window_weights(coeffs, j), coeffs.bounds[j].size as int) - WEIGHT_ONE)
            <= coeffs.bounds[j].size by {
            assert(raw_weights(windows@[j]@) == window_weights(coeffs, j));
        }
        assert(coeffs.bounds[longest].size == coeffs.window_size);
    }
    Ok(coeffs)
}

} // verus!
