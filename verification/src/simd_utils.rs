//! Registers as lane arrays.
//!
//! A 256-bit register is read here as four signed 64-bit lanes. Taps reach
//! the lanes through a group loader that widens up to sixteen neighbouring
//! samples, so that a kernel written against these functions has the data
//! flow of a vector kernel and the meaning of plain integer arithmetic.
use crate::convolution::lemmas::{
    lemma_magnitude_add, lemma_magnitude_nonnegative, lemma_window_padding,
};
use crate::convolution::{magnitude, window_magnitude, window_sum};
use crate::pixels::{samples, Pixel};
use vstd::prelude::*;

verus! {

/// The lanes of a register as mathematical integers.
pub open spec fn ints(lanes: Seq<i64>) -> Seq<int> {
    Seq::new(lanes.len(), |j: int| lanes[j] as int)
}

/// The sum of the four lanes.
pub open spec fn lanes_total(lanes: [i64; 4]) -> int {
    lanes[0] + lanes[1] + lanes[2] + lanes[3]
}

/// The sum of the magnitudes of the four lanes.
#[verifier::opaque]
pub open spec fn lanes_magnitude(lanes: [i64; 4]) -> int {
    magnitude(lanes[0] as int) + magnitude(lanes[1] as int) + magnitude(lanes[2] as int)
        + magnitude(lanes[3] as int)
}

/// Every entry of a tap group is a sample no wider than sixteen bits.
pub open spec fn is_sample_group(group: [i64; 16]) -> bool {
    forall|j: int| 0 <= j < 16 ==> 0 <= #[trigger] group[j] <= 0xFFFF
}

/// Every entry of a weight group fits 32 bits.
pub open spec fn is_weight_group(group: [i64; 16]) -> bool {
    forall|j: int| 0 <= j < 16 ==> i32::MIN <= #[trigger] group[j] <= i32::MAX
}

/// Loads `width` neighbouring samples of `row`, starting at `x`, widened to
/// 64 bits. Entries from `width` on are zero.
pub fn load_taps<P: Pixel>(row: &[P], x: usize, width: usize) -> (group: [i64; 16])
    requires
        width <= 16,
        x + width <= row@.len(),
    ensures
        forall|j: int| 0 <= j < width ==> group[j] == samples(row@)[x + j],
        is_padded(group, width as int),
        is_sample_group(group),
{
    let mut group: [i64; 16] = [0; 16];
    let len: usize = row.len();
    let mut j: usize = 0;
    while j < width
        invariant
            j <= width <= 16,
            x + width <= len,
            len == row@.len(),
            forall|i: int| 0 <= i < j ==> group[i] == samples(row@)[x + i],
            forall|i: int| j <= i < 16 ==> group[i] == 0,
            is_sample_group(group),
        decreases width - j,
    {
        let p: P = row[x + j];
        proof {
            p.lemma_value_range();
        }
        group[j] = p.to_i64();
        j += 1;
    }
    group
}

/// Loads `width` neighbouring weights, starting at `at`, sign-extended to 64
/// bits. Entries from `width` on are zero.
pub fn load_weights(values: &[i32], at: usize, width: usize) -> (group: [i64; 16])
    requires
        width <= 16,
        at + width <= values@.len(),
    ensures
        forall|j: int| 0 <= j < width ==> group[j] == values@[at + j],
        is_padded(group, width as int),
        is_weight_group(group),
{
    let mut group: [i64; 16] = [0; 16];
    let len: usize = values.len();
    let mut j: usize = 0;
    while j < width
        invariant
            j <= width <= 16,
            at + width <= len,
            len == values@.len(),
            forall|i: int| 0 <= i < j ==> group[i] == values@[at + i],
            forall|i: int| j <= i < 16 ==> group[i] == 0,
            is_weight_group(group),
        decreases width - j,
    {
        group[j] = values[at + j] as i64;
        j += 1;
    }
    group
}

/// Loads four neighbouring samples of `row`, starting at `x`, one per lane.
pub fn load_lanes<P: Pixel>(row: &[P], x: usize) -> (lanes: [i64; 4])
    requires
        x + 4 <= row@.len(),
    ensures
        forall|j: int| 0 <= j < 4 ==> #[trigger] lanes[j] == samples(row@)[x + j],
        forall|j: int| 0 <= j < 4 ==> 0 <= #[trigger] lanes[j] <= P::max_value(),
{
    let len: usize = row.len();
    let a: P = row[x];
    let b: P = row[x + 1];
    let c: P = row[x + 2];
    let d: P = row[x + 3];
    proof {
        a.lemma_value_range();
        b.lemma_value_range();
        c.lemma_value_range();
        d.lemma_value_range();
    }
    [a.to_i64(), b.to_i64(), c.to_i64(), d.to_i64()]
}

/// `v` in every lane.
pub fn set1_epi64x(v: i64) -> (lanes: [i64; 4])
    ensures
        forall|j: int| 0 <= j < 4 ==> #[trigger] lanes[j] == v,
{
    [v, v, v, v]
}

/// Lane-wise widening multiply: each lane of the result is the product of the
/// low 32 bits of the same lane of `a` and of `b`, read as signed integers.
/// On lanes that fit 32 bits that is the product of the lanes.
pub fn mul_epi32(a: [i64; 4], b: [i64; 4]) -> (r: [i64; 4])
    requires
        forall|j: int| 0 <= j < 4 ==> i32::MIN <= #[trigger] a[j] <= i32::MAX,
        forall|j: int| 0 <= j < 4 ==> i32::MIN <= #[trigger] b[j] <= i32::MAX,
    ensures
        forall|j: int| 0 <= j < 4 ==> #[trigger] r[j] == a[j] * b[j],
{
    proof {
        assert forall|j: int| 0 <= j < 4 implies i64::MIN <= #[trigger] (a[j] * b[j])
            <= i64::MAX by {
            lemma_product_of_i32_fits(a[j] as int, b[j] as int);
        }
    }
    [a[0] * b[0], a[1] * b[1], a[2] * b[2], a[3] * b[3]]
}

/// Lane-wise 64-bit addition.
pub fn add_epi64(a: [i64; 4], b: [i64; 4]) -> (r: [i64; 4])
    requires
        forall|j: int| 0 <= j < 4 ==> i64::MIN <= #[trigger] a[j] + b[j] <= i64::MAX,
    ensures
        forall|j: int| 0 <= j < 4 ==> #[trigger] r[j] == a[j] + b[j],
{
    assert(i64::MIN <= a[0] + b[0] <= i64::MAX);
    assert(i64::MIN <= a[1] + b[1] <= i64::MAX);
    assert(i64::MIN <= a[2] + b[2] <= i64::MAX);
    assert(i64::MIN <= a[3] + b[3] <= i64::MAX);
    [a[0] + b[0], a[1] + b[1], a[2] + b[2], a[3] + b[3]]
}

/// The four lanes that one shuffle of a tap group selects: entries `lo` and
/// `lo + 1` for the low half of the register, `hi` and `hi + 1` for the high
/// half.
pub fn shuffle(group: &[i64; 16], lo: usize, hi: usize) -> (r: [i64; 4])
    requires
        lo + 1 < 16,
        hi + 1 < 16,
    ensures
        r[0] == group[lo as int],
        r[1] == group[lo + 1],
        r[2] == group[hi as int],
        r[3] == group[hi + 1],
{
    [group[lo], group[lo + 1], group[hi], group[hi + 1]]
}

/// One multiply-accumulate: `sum + shuffle(taps) * shuffle(weights)`, lane by
/// lane.
pub fn madd(
    sum: [i64; 4],
    taps: &[i64; 16],
    weights: &[i64; 16],
    lo: usize,
    hi: usize,
) -> (r: [i64; 4])
    requires
        lo + 1 < 16,
        hi + 1 < 16,
        is_sample_group(*taps),
        is_weight_group(*weights),
        lanes_magnitude(sum) + magnitude(taps[lo as int] * weights[lo as int]) + magnitude(
            taps[lo + 1] * weights[lo + 1],
        ) + magnitude(taps[hi as int] * weights[hi as int]) + magnitude(
            taps[hi + 1] * weights[hi + 1],
        ) <= i64::MAX,
    ensures
        r[0] == sum[0] + taps[lo as int] * weights[lo as int],
        r[1] == sum[1] + taps[lo + 1] * weights[lo + 1],
        r[2] == sum[2] + taps[hi as int] * weights[hi as int],
        r[3] == sum[3] + taps[hi + 1] * weights[hi + 1],
        lanes_magnitude(r) <= lanes_magnitude(sum) + magnitude(taps[lo as int] * weights[lo as int])
            + magnitude(taps[lo + 1] * weights[lo + 1]) + magnitude(
            taps[hi as int] * weights[hi as int],
        ) + magnitude(taps[hi + 1] * weights[hi + 1]),
{
    let t: [i64; 4] = shuffle(taps, lo, hi);
    let w: [i64; 4] = shuffle(weights, lo, hi);
    let product: [i64; 4] = mul_epi32(t, w);
    proof {
        reveal(lanes_magnitude);
        lemma_magnitude_add(sum[0] as int, product[0] as int);
        lemma_magnitude_add(sum[1] as int, product[1] as int);
        lemma_magnitude_add(sum[2] as int, product[2] as int);
        lemma_magnitude_add(sum[3] as int, product[3] as int);
    }
    add_epi64(sum, product)
}

/// What a register step over a group of `width` taps leaves in lane `j`.
///
/// Lanes 0 and 1 belong to the low half of the register, lanes 2 and 3 to
/// the high half. Of sixteen taps the low half takes taps 0 to 7 and the
/// high half taps 8 to 15; of eight taps the low half takes taps 0 to 3 and
/// the high half taps 4 to 7; in both a lane takes every other tap of its
/// half. Of up to four taps every lane takes one.
pub open spec fn lane_after(
    sum: [i64; 4],
    taps: Seq<int>,
    weights: Seq<int>,
    width: int,
    j: int,
) -> int {
    if width == 16 {
        let at = if j < 2 {
            j
        } else {
            j + 6
        };
        sum[j] + taps[at] * weights[at] + taps[at + 2] * weights[at + 2] + taps[at + 4] * weights[at
            + 4] + taps[at + 6] * weights[at + 6]
    } else if width == 8 {
        let at = if j < 2 {
            j
        } else {
            j + 2
        };
        sum[j] + taps[at] * weights[at] + taps[at + 2] * weights[at + 2]
    } else {
        sum[j] + taps[j] * weights[j]
    }
}

/// Whether `r` is what a register step over a group of `width` taps makes of
/// the lanes `sum`.
pub open spec fn is_step(
    r: [i64; 4],
    sum: [i64; 4],
    taps: Seq<int>,
    weights: Seq<int>,
    width: int,
) -> bool {
    forall|j: int| 0 <= j < 4 ==> #[trigger] r[j] == lane_after(sum, taps, weights, width, j)
}

/// A group of `width` samples from `x` on, filled up with zeros to sixteen
/// entries.
pub open spec fn padded(samples: Seq<int>, x: int, width: int) -> Seq<int> {
    Seq::new(
        16,
        |j: int|
            if j < width {
                samples[x + j]
            } else {
                0
            },
    )
}

/// Sixteen taps into four lanes. The low half of the register takes taps 0 to
/// 7, the high half taps 8 to 15, two taps of each half per shuffle.
pub fn madd_16(sum: [i64; 4], taps: &[i64; 16], weights: &[i64; 16]) -> (r: [i64; 4])
    requires
        is_sample_group(*taps),
        is_weight_group(*weights),
        lanes_magnitude(sum) + window_magnitude(ints(taps@), 0, ints(weights@), 16) <= i64::MAX,
    ensures
        is_step(r, sum, ints(taps@), ints(weights@), 16),
        lanes_total(r) == lanes_total(sum) + window_sum(ints(taps@), 0, ints(weights@), 16),
        lanes_magnitude(r) <= lanes_magnitude(sum) + window_magnitude(
            ints(taps@),
            0,
            ints(weights@),
            16,
        ),
{
    proof {
        lemma_group_of_16(ints(taps@), ints(weights@));
        lemma_magnitude_nonnegative();
    }
    let r: [i64; 4] = madd(sum, taps, weights, 0, 8);
    let r: [i64; 4] = madd(r, taps, weights, 2, 10);
    let r: [i64; 4] = madd(r, taps, weights, 4, 12);
    madd(r, taps, weights, 6, 14)
}

/// Eight taps into four lanes. The low half of the register takes taps 0 to 3,
/// the high half taps 4 to 7.
pub fn madd_8(sum: [i64; 4], taps: &[i64; 16], weights: &[i64; 16]) -> (r: [i64; 4])
    requires
        is_sample_group(*taps),
        is_weight_group(*weights),
        lanes_magnitude(sum) + window_magnitude(ints(taps@), 0, ints(weights@), 8) <= i64::MAX,
    ensures
        is_step(r, sum, ints(taps@), ints(weights@), 8),
        lanes_total(r) == lanes_total(sum) + window_sum(ints(taps@), 0, ints(weights@), 8),
        lanes_magnitude(r) <= lanes_magnitude(sum) + window_magnitude(
            ints(taps@),
            0,
            ints(weights@),
            8,
        ),
{
    proof {
        lemma_group_of_8(ints(taps@), ints(weights@));
        lemma_magnitude_nonnegative();
    }
    let r: [i64; 4] = madd(sum, taps, weights, 0, 4);
    madd(r, taps, weights, 2, 6)
}

/// Four taps, one per lane.
pub fn madd_4(sum: [i64; 4], taps: &[i64; 16], weights: &[i64; 16]) -> (r: [i64; 4])
    requires
        is_sample_group(*taps),
        is_weight_group(*weights),
        lanes_magnitude(sum) + window_magnitude(ints(taps@), 0, ints(weights@), 4) <= i64::MAX,
    ensures
        is_step(r, sum, ints(taps@), ints(weights@), 4),
        lanes_total(r) == lanes_total(sum) + window_sum(ints(taps@), 0, ints(weights@), 4),
        lanes_magnitude(r) <= lanes_magnitude(sum) + window_magnitude(
            ints(taps@),
            0,
            ints(weights@),
            4,
        ),
{
    proof {
        lemma_group_of_4(ints(taps@), ints(weights@));
        lemma_magnitude_nonnegative();
    }
    madd(sum, taps, weights, 0, 2)
}

/// Whether `width` is a group a register step can take: sixteen taps, eight,
/// or up to four.
pub open spec fn is_group_width(width: int) -> bool {
    width == 16 || width == 8 || 0 <= width <= 4
}

/// The group a register step takes when `left` taps of a window are left:
/// sixteen while there are sixteen, then eight, then four, then the rest.
pub open spec fn group_width(left: int) -> int {
    if left >= 16 {
        16
    } else if left >= 8 {
        8
    } else if left >= 4 {
        4
    } else {
        left
    }
}

/// Evaluates `group_width`.
pub fn next_group(left: usize) -> (width: usize)
    ensures
        width == group_width(left as int),
        is_group_width(width as int),
        width <= left,
        left > 0 ==> width > 0,
{
    if left >= 16 {
        16
    } else if left >= 8 {
        8
    } else if left >= 4 {
        4
    } else {
        left
    }
}

/// Every entry of a group from `width` on is zero.
pub open spec fn is_padded(group: [i64; 16], width: int) -> bool {
    forall|j: int| width <= j < 16 ==> #[trigger] group[j] == 0
}

/// One register step: a group of `width` taps multiplied by its weights and
/// added into the lanes. A group of fewer than four taps runs as a group of
/// four whose missing taps are zero.
pub fn madd_group(
    sum: [i64; 4],
    taps: &[i64; 16],
    weights: &[i64; 16],
    width: usize,
) -> (r: [i64; 4])
    requires
        is_group_width(width as int),
        is_sample_group(*taps),
        is_weight_group(*weights),
        is_padded(*taps, width as int),
        is_padded(*weights, width as int),
        lanes_magnitude(sum) + window_magnitude(ints(taps@), 0, ints(weights@), width as int)
            <= i64::MAX,
    ensures
        is_step(r, sum, ints(taps@), ints(weights@), width as int),
        lanes_total(r) == lanes_total(sum) + window_sum(
            ints(taps@),
            0,
            ints(weights@),
            width as int,
        ),
        lanes_magnitude(r) <= lanes_magnitude(sum) + window_magnitude(
            ints(taps@),
            0,
            ints(weights@),
            width as int,
        ),
{
    if width == 16 {
        madd_16(sum, taps, weights)
    } else if width == 8 {
        madd_8(sum, taps, weights)
    } else {
        proof {
            lemma_window_padding(ints(taps@), ints(weights@), width as int, 4);
        }
        madd_4(sum, taps, weights)
    }
}

/// The four lanes of a register added up.
pub fn reduce_add(lanes: [i64; 4]) -> (total: i64)
    requires
        lanes_magnitude(lanes) <= i64::MAX,
    ensures
        total == lanes_total(lanes),
        -lanes_magnitude(lanes) <= total <= lanes_magnitude(lanes),
{
    proof {
        reveal(lanes_magnitude);
        lemma_magnitude_add(lanes[0] as int, lanes[1] as int);
        lemma_magnitude_add(lanes[2] as int, lanes[3] as int);
    }
    lanes[0] + lanes[1] + lanes[2] + lanes[3]
}

/// A window of four taps, written out.
pub proof fn lemma_group_of_4(t: Seq<int>, w: Seq<int>)
    ensures
        window_sum(t, 0, w, 4) == t[0] * w[0] + t[1] * w[1] + t[2] * w[2] + t[3] * w[3],
        window_magnitude(t, 0, w, 4) == magnitude(t[0] * w[0]) + magnitude(t[1] * w[1])
            + magnitude(t[2] * w[2]) + magnitude(t[3] * w[3]),
{
    reveal_with_fuel(window_sum, 5);
    reveal_with_fuel(window_magnitude, 5);
}

/// A window of eight taps, written out.
pub proof fn lemma_group_of_8(t: Seq<int>, w: Seq<int>)
    ensures
        window_sum(t, 0, w, 8) == window_sum(t, 0, w, 4) + t[4] * w[4] + t[5] * w[5] + t[6]
            * w[6] + t[7] * w[7],
        window_magnitude(t, 0, w, 8) == window_magnitude(t, 0, w, 4) + magnitude(t[4] * w[4])
            + magnitude(t[5] * w[5]) + magnitude(t[6] * w[6]) + magnitude(t[7] * w[7]),
        window_sum(t, 0, w, 4) == t[0] * w[0] + t[1] * w[1] + t[2] * w[2] + t[3] * w[3],
        window_magnitude(t, 0, w, 4) == magnitude(t[0] * w[0]) + magnitude(t[1] * w[1])
            + magnitude(t[2] * w[2]) + magnitude(t[3] * w[3]),
{
    lemma_group_of_4(t, w);
    reveal_with_fuel(window_sum, 5);
    reveal_with_fuel(window_magnitude, 5);
}

/// A window of sixteen taps, written out.
pub proof fn lemma_group_of_16(t: Seq<int>, w: Seq<int>)
    ensures
        window_sum(t, 0, w, 16) == window_sum(t, 0, w, 8) + t[8] * w[8] + t[9] * w[9] + t[10]
            * w[10] + t[11] * w[11] + t[12] * w[12] + t[13] * w[13] + t[14] * w[14] + t[15]
            * w[15],
        window_magnitude(t, 0, w, 16) == window_magnitude(t, 0, w, 8) + magnitude(t[8] * w[8])
            + magnitude(t[9] * w[9]) + magnitude(t[10] * w[10]) + magnitude(t[11] * w[11])
            + magnitude(t[12] * w[12]) + magnitude(t[13] * w[13]) + magnitude(t[14] * w[14])
            + magnitude(t[15] * w[15]),
        window_sum(t, 0, w, 8) == t[0] * w[0] + t[1] * w[1] + t[2] * w[2] + t[3] * w[3] + t[4]
            * w[4] + t[5] * w[5] + t[6] * w[6] + t[7] * w[7],
        window_magnitude(t, 0, w, 8) == magnitude(t[0] * w[0]) + magnitude(t[1] * w[1])
            + magnitude(t[2] * w[2]) + magnitude(t[3] * w[3]) + magnitude(t[4] * w[4])
            + magnitude(t[5] * w[5]) + magnitude(t[6] * w[6]) + magnitude(t[7] * w[7]),
{
    lemma_group_of_8(t, w);
    reveal_with_fuel(window_sum, 9);
    reveal_with_fuel(window_magnitude, 9);
}

/// The product of two 32-bit integers fits 64 bits.
pub proof fn lemma_product_of_i32_fits(a: int, b: int)
    requires
        i32::MIN <= a <= i32::MAX,
        i32::MIN <= b <= i32::MAX,
    ensures
        -0x4000_0000_0000_0000 <= a * b <= 0x4000_0000_0000_0000,
{
    assert(-0x4000_0000_0000_0000 <= a * b <= 0x4000_0000_0000_0000) by (nonlinear_arith)
        requires
            -0x8000_0000 <= a <= 0x7FFF_FFFF,
            -0x8000_0000 <= b <= 0x7FFF_FFFF,
    ;
}

} // verus!
