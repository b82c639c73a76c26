//! Fixed-point weights: the precision they are stored at, the chunks the
//! kernels walk, and the way a sum is brought back to a pixel.
use super::lemmas::{
    lemma_magnitude_sum_step, lemma_negative_quotient, lemma_pow2_fits_i64, lemma_pow2_monotonic,
};
use super::{
    clip, half_error, magnitude, magnitude_sum, Bound, Coefficients, ContractViolation,
    WEIGHT_FRACTION_BITS,
};
use crate::pixels::Pixel;
use vstd::arithmetic::power2::pow2;
use vstd::prelude::*;

verus! {

/// Fewest fractional bits a normalizer works with: the rounding constant is
/// half a unit, so there has to be a bit to halve.
pub const MIN_PRECISION: u8 = 1;

/// Most fractional bits a normalizer works with: a weight is stored in 32
/// bits, and a weight of one, `2^precision`, has to fit with room to overshoot.
pub const MAX_PRECISION: u8 = 30;

/// `2^e`.
pub fn pow2_i64(e: u8) -> (r: i64)
    requires
        e <= 62,
    ensures
        r == pow2(e as nat),
{
    proof {
        lemma_pow2_fits_i64(e as nat);
        vstd::bits::lemma_u64_shl_is_mul(1, e as u64);
    }
    (1u64 << (e as u64)) as i64
}

/// The rounding constant for `precision` fractional bits.
pub fn half_error_i64(precision: u8) -> (r: i64)
    requires
        1 <= precision <= 63,
    ensures
        r == half_error(precision as nat),
{
    pow2_i64(precision - 1)
}

/// Whether sums at `precision` fractional bits stay inside a signed 64-bit
/// accumulator: `window_size` products of a sample of at most `max` and a
/// weight of at most one, and the rounding constant on top.
pub open spec fn precision_fits(max: int, window_size: int, precision: int) -> bool {
    &&& MIN_PRECISION <= precision <= MAX_PRECISION
    &&& max * window_size * pow2(precision as nat) + half_error(precision as nat) <= i64::MAX
}

/// The largest precision from `from` down that fits, if any does.
pub open spec fn search_precision(max: int, window_size: int, from: int) -> Option<nat>
    decreases from,
{
    if from < MIN_PRECISION {
        None
    } else if precision_fits(max, window_size, from) {
        Some(from as nat)
    } else {
        search_precision(max, window_size, from - 1)
    }
}

/// The precision of a normalizer for windows of up to `window_size` taps over
/// samples of at most `max`: the largest one that fits.
pub open spec fn chosen_precision(max: int, window_size: int) -> Option<nat> {
    search_precision(max, window_size, MAX_PRECISION as int)
}

/// Tests `precision_fits` for the samples of `P`.
pub fn precision_fits_exec<P: Pixel>(window_size: usize, precision: u8) -> (fits: bool)
    ensures
        fits == precision_fits(P::max_value(), window_size as int, precision as int),
{
    if precision < MIN_PRECISION || precision > MAX_PRECISION {
        return false;
    }
    let max: i64 = P::max_i64();
    let unit: i64 = pow2_i64(precision);
    let half: i64 = half_error_i64(precision);
    proof {
        P::lemma_max_value_range();
        lemma_pow2_monotonic(precision as nat, 30);
        lemma_pow2_monotonic((precision - 1) as nat, 30);
        vstd::arithmetic::power2::lemma2_to64();
        assert(0 <= max * window_size <= 0xFFFF * 0xFFFF_FFFF_FFFF_FFFF) by (nonlinear_arith)
            requires
                0 <= max <= 0xFFFF,
                0 <= window_size <= 0xFFFF_FFFF_FFFF_FFFF,
        ;
        assert(0 <= (max * window_size) * unit <= (0xFFFF * 0xFFFF_FFFF_FFFF_FFFF) * 0x4000_0000)
            by (nonlinear_arith)
            requires
                0 <= max * window_size <= 0xFFFF * 0xFFFF_FFFF_FFFF_FFFF,
                0 <= unit <= 0x4000_0000,
        ;
    }
    let product: u128 = (max as u128) * (window_size as u128);
    let worst: u128 = product * (unit as u128) + (half as u128);
    worst <= 0x7FFF_FFFF_FFFF_FFFF
}

/// Chooses the precision for the samples of `P` and windows of up to
/// `window_size` taps: the largest that fits, `None` if none does.
pub fn choose_precision<P: Pixel>(window_size: usize) -> (r: Option<u8>)
    ensures
        r is Some <==> chosen_precision(P::max_value(), window_size as int) is Some,
        r matches Some(p) ==> chosen_precision(P::max_value(), window_size as int) == Some(
            p as nat,
        ),
{
    let mut precision: u8 = MAX_PRECISION;
    while precision >= MIN_PRECISION
        invariant
            precision <= MAX_PRECISION,
            chosen_precision(P::max_value(), window_size as int) == search_precision(
                P::max_value(),
                window_size as int,
                precision as int,
            ),
        decreases precision,
    {
        if precision_fits_exec::<P>(window_size, precision) {
            return Some(precision);
        }
        precision -= 1;
    }
    None
}

/// A weight brought from `WEIGHT_FRACTION_BITS` fractional bits down to
/// `precision`: the nearest integer to `weight / 2^(52 - precision)`, halves
/// rounded away from zero.
pub open spec fn round_weight(weight: int, precision: nat) -> int
    recommends
        precision < WEIGHT_FRACTION_BITS,
{
    let shift = (WEIGHT_FRACTION_BITS - precision) as nat;
    if weight >= 0 {
        (weight + pow2((shift - 1) as nat)) / (pow2(shift) as int)
    } else {
        -((-weight + pow2((shift - 1) as nat)) / (pow2(shift) as int))
    }
}

/// Rounds one weight to `precision` fractional bits. `None` where the
/// precision is not one a normalizer works with, or the result does not fit
/// 32 bits.
pub fn normalize_weight(weight: i64, precision: u8) -> (r: Option<i32>)
    ensures
        r is Some <==> {
            &&& MIN_PRECISION <= precision <= MAX_PRECISION
            &&& i32::MIN <= round_weight(weight as int, precision as nat) <= i32::MAX
        },
        r matches Some(w) ==> w == round_weight(weight as int, precision as nat),
{
    if precision < MIN_PRECISION || precision > MAX_PRECISION {
        return None;
    }
    let shift: u8 = WEIGHT_FRACTION_BITS - precision;
    let half: i64 = pow2_i64(shift - 1);
    let negative: bool = weight < 0;
    let size: u64 = if !negative {
        weight as u64
    } else if weight == i64::MIN {
        0x8000_0000_0000_0000
    } else {
        (-weight) as u64
    };
    proof {
        lemma_pow2_monotonic((shift - 1) as nat, 50);
        vstd::arithmetic::power2::lemma2_to64_rest();
        vstd::bits::lemma_u64_shr_is_div((size + half as u64) as u64, shift as u64);
        lemma_pow2_monotonic(22, shift as nat);
        vstd::arithmetic::power2::lemma2_to64();
        assert(((size + half) / (pow2(shift as nat) as int)) <= (size + half) / 0x40_0000) by {
            vstd::arithmetic::div_mod::lemma_div_is_ordered_by_denominator(
                (size + half) as int,
                0x40_0000,
                pow2(shift as nat) as int,
            );
        }
    }
    let rounded: u64 = (size + half as u64) >> (shift as u64);
    if negative {
        if rounded > 0x8000_0000 {
            None
        } else {
            Some((-(rounded as i64)) as i32)
        }
    } else {
        if rounded > 0x7FFF_FFFF {
            None
        } else {
            Some(rounded as i32)
        }
    }
}

/// What a chunk says: where its window starts in the source and the weight
/// of each tap, in ascending source order.
pub ghost struct ChunkView {
    pub start: int,
    pub weights: Seq<int>,
}

impl ChunkView {
    /// The sum of the magnitudes of the weights.
    pub open spec fn weight_magnitude(self) -> int {
        magnitude_sum(self.weights, self.weights.len() as int)
    }

    /// Whether a kernel can run the chunk against `source_len` samples of at
    /// most `max` each: the window lies inside the source, every weight fits
    /// 32 bits, and no partial sum of its products, with the rounding constant
    /// on top, leaves the 64-bit accumulator.
    pub open spec fn fits(self, source_len: int, precision: nat, max: int) -> bool {
        &&& 0 <= self.start
        &&& self.start + self.weights.len() <= source_len
        &&& forall|k: int|
            0 <= k < self.weights.len() ==> i32::MIN <= #[trigger] self.weights[k] <= i32::MAX
        &&& max * self.weight_magnitude() + half_error(precision) <= i64::MAX
    }
}

/// The normalized weights of one destination index.
#[derive(Clone, Copy)]
pub struct CoefficientsI32Chunk<'a> {
    /// Source index of the first tap.
    pub start: u32,
    /// One weight per tap, each in units of `2^-precision`.
    pub values: &'a [i32],
}

impl<'a> View for CoefficientsI32Chunk<'a> {
    type V = ChunkView;

    open spec fn view(&self) -> ChunkView {
        ChunkView {
            start: self.start as int,
            weights: Seq::new(self.values@.len(), |k: int| self.values@[k] as int),
        }
    }
}

/// What a normalizer holds: the precision, the widest window, the largest
/// sample it was made for, and one chunk per destination index.
pub ghost struct NormalizedView {
    pub precision: nat,
    pub window_size: nat,
    pub max_value: int,
    pub chunks: Seq<ChunkView>,
}

impl NormalizedView {
    /// The precision fits the accumulator, and every chunk keeps to the
    /// window size, to 32-bit weights, and to a magnitude sum of at most
    /// `window_size` ones.
    pub open spec fn wf(self) -> bool {
        &&& 0 < self.max_value <= 0xFFFF
        &&& precision_fits(self.max_value, self.window_size as int, self.precision as int)
        &&& forall|i: int|
            0 <= i < self.chunks.len() ==> (#[trigger] self.chunks[i]).weights.len()
                <= self.window_size
        &&& forall|i: int, k: int|
            0 <= i < self.chunks.len() && 0 <= k < self.chunks[i].weights.len() ==> i32::MIN
                <= #[trigger] self.chunks[i].weights[k] <= i32::MAX
        &&& forall|i: int|
            0 <= i < self.chunks.len() ==> (#[trigger] self.chunks[i]).weight_magnitude()
                <= self.window_size * pow2(self.precision)
    }
}

/// The chunk of destination index `i`: its window's start, and its weights
/// rounded to `precision`.
pub open spec fn normalized_chunk(coeffs: Coefficients, precision: nat, i: int) -> ChunkView {
    ChunkView {
        start: coeffs.bounds[i].start as int,
        weights: Seq::new(
            coeffs.bounds[i].size as nat,
            |k: int| round_weight(coeffs.values[i * coeffs.window_size + k] as int, precision),
        ),
    }
}

/// What normalizing `coeffs` at `precision` for samples of at most `max`
/// gives.
pub open spec fn normalized(coeffs: Coefficients, precision: nat, max: int) -> NormalizedView {
    NormalizedView {
        precision,
        window_size: coeffs.window_size as nat,
        max_value: max,
        chunks: Seq::new(
            coeffs.bounds.len() as nat,
            |i: int| normalized_chunk(coeffs, precision, i),
        ),
    }
}

/// `values` holds `window_size` entries per window, and no window has more
/// taps than that.
pub open spec fn layout_ok(coeffs: Coefficients) -> bool {
    &&& coeffs.values.len() == coeffs.window_size * coeffs.bounds.len()
    &&& forall|i: int|
        0 <= i < coeffs.bounds.len() ==> (#[trigger] coeffs.bounds[i]).size <= coeffs.window_size
}

/// The weights of window `i` can be stored: each fits 32 bits once rounded,
/// and their magnitudes add up to at most `window_size` ones.
pub open spec fn window_ok(coeffs: Coefficients, precision: nat, i: int) -> bool {
    let chunk = normalized_chunk(coeffs, precision, i);
    &&& forall|k: int|
        0 <= k < chunk.weights.len() ==> i32::MIN <= #[trigger] chunk.weights[k] <= i32::MAX
    &&& chunk.weight_magnitude() <= coeffs.window_size * pow2(precision)
}

/// Why `coeffs` cannot be normalized at `precision` for samples of at most
/// `max`, if it cannot: the first of layout, precision and weights that is
/// at fault.
pub open spec fn normalize_violation(coeffs: Coefficients, precision: int, max: int) -> Option<
    ContractViolation,
> {
    if !layout_ok(coeffs) {
        Some(ContractViolation::CoefficientsLayout)
    } else if !precision_fits(max, coeffs.window_size as int, precision) {
        Some(ContractViolation::AccumulatorOverflow)
    } else if !(forall|i: int|
        0 <= i < coeffs.bounds.len() ==> #[trigger] window_ok(coeffs, precision as nat, i)) {
        Some(ContractViolation::WeightOutOfRange)
    } else {
        None
    }
}

/// Stored weights as mathematical integers.
pub open spec fn stored(weights: Seq<i32>) -> Seq<int> {
    Seq::new(weights.len(), |k: int| weights[k] as int)
}

/// Tests `layout_ok`.
pub fn check_layout(coeffs: &Coefficients) -> (ok: bool)
    ensures
        ok == layout_ok(*coeffs),
{
    let count: usize = coeffs.bounds.len();
    proof {
        assert(0 <= coeffs.window_size * count <= 0xFFFF_FFFF_FFFF_FFFF * 0xFFFF_FFFF_FFFF_FFFF)
            by (nonlinear_arith)
            requires
                0 <= coeffs.window_size <= 0xFFFF_FFFF_FFFF_FFFF,
                0 <= count <= 0xFFFF_FFFF_FFFF_FFFF,
        ;
    }
    if (coeffs.values.len() as u128) != (coeffs.window_size as u128) * (count as u128) {
        return false;
    }
    let mut i: usize = 0;
    while i < count
        invariant
            i <= count == coeffs.bounds.len(),
            coeffs.values.len() == coeffs.window_size * coeffs.bounds.len(),
            forall|j: int| 0 <= j < i ==> (#[trigger] coeffs.bounds[j]).size <= coeffs.window_size,
        decreases count - i,
    {
        if coeffs.bounds[i].size as usize > coeffs.window_size {
            return false;
        }
        i += 1;
    }
    true
}

/// Rounds the weights of window `i` to `precision`. `None` unless they can be
/// stored.
pub fn normalize_chunk(coeffs: &Coefficients, i: usize, precision: u8) -> (r: Option<Vec<i32>>)
    requires
        layout_ok(*coeffs),
        i < coeffs.bounds.len(),
        MIN_PRECISION <= precision <= MAX_PRECISION,
    ensures
        r is Some <==> window_ok(*coeffs, precision as nat, i as int),
        r matches Some(weights) ==> stored(weights@) == normalized_chunk(
            *coeffs,
            precision as nat,
            i as int,
        ).weights,
{
    let ghost chunk = normalized_chunk(*coeffs, precision as nat, i as int);
    let window_size: usize = coeffs.window_size;
    let size: usize = coeffs.bounds[i].size as usize;
    let len: usize = coeffs.values.len();
    proof {
        assert(coeffs.bounds[i as int].size <= window_size);
        crate::image_view::lemma_row_range(
            window_size as nat,
            coeffs.bounds.len() as nat,
            i as int,
        );
    }
    let base: usize = i * window_size;
    let unit: i64 = pow2_i64(precision);
    proof {
        lemma_pow2_monotonic(precision as nat, 30);
        vstd::arithmetic::power2::lemma2_to64();
        assert(0 <= window_size * unit <= 0xFFFF_FFFF_FFFF_FFFF * 0x4000_0000) by (nonlinear_arith)
            requires
                0 <= window_size <= 0xFFFF_FFFF_FFFF_FFFF,
                0 <= unit <= 0x4000_0000,
        ;
    }
    let limit: u128 = (window_size as u128) * (unit as u128);
    let mut weights: Vec<i32> = Vec::new();
    let mut total: u64 = 0;
    let mut k: usize = 0;
    while k < size
        invariant
            k <= size <= window_size == coeffs.window_size,
            i < coeffs.bounds.len(),
            size == coeffs.bounds[i as int].size,
            base == i * window_size,
            base + window_size <= coeffs.values.len(),
            MIN_PRECISION <= precision <= MAX_PRECISION,
            chunk == normalized_chunk(*coeffs, precision as nat, i as int),
            weights@.len() == k,
            forall|j: int|
                #![trigger weights@[j]]
                #![trigger chunk.weights[j]]
                0 <= j < k ==> weights@[j] == chunk.weights[j],
            total == magnitude_sum(chunk.weights, k as int),
            total <= k * 0x8000_0000,
        decreases size - k,
    {
        match normalize_weight(coeffs.values[base + k], precision) {
            Some(w) => {
                proof {
                    lemma_magnitude_sum_step(chunk.weights, k as int);
                    reveal(magnitude);
                }
                weights.push(w);
                let size_of_w: u64 = if w < 0 {
                    (-(w as i64)) as u64
                } else {
                    w as u64
                };
                total = total + size_of_w;
            },
            None => {
                proof {
                    assert(!(i32::MIN <= chunk.weights[k as int] <= i32::MAX));
                }
                return None;
            },
        }
        k += 1;
    }
    if total as u128 > limit {
        return None;
    }
    proof {
        assert(stored(weights@) =~= chunk.weights);
    }
    Some(weights)
}

/// Normalized weights, ready for the kernels./// Normalized weights, ready for the kernels.
pub struct NormalizerGuard32 {
    weights: Vec<Vec<i32>>,
    bounds: Vec<Bound>,
    window_size: usize,
    precision: u8,
    max_value: i64,
}

impl View for NormalizerGuard32 {
    type V = NormalizedView;

    closed spec fn view(&self) -> NormalizedView {
        NormalizedView {
            precision: self.precision as nat,
            window_size: self.window_size as nat,
            max_value: self.max_value as int,
            chunks: Seq::new(
                self.bounds.len() as nat,
                |i: int|
                    ChunkView {
                        start: self.bounds[i].start as int,
                        weights: Seq::new(
                            self.weights[i].len() as nat,
                            |k: int| self.weights[i][k] as int,
                        ),
                    },
            ),
        }
    }
}

impl NormalizerGuard32 {
    /// One vector of weights per window.
    pub closed spec fn well_laid_out(&self) -> bool {
        self.weights.len() == self.bounds.len()
    }

    /// The invariant of a normalizer.
    pub open spec fn wf(&self) -> bool {
        self.well_laid_out() && self@.wf()
    }

    /// Normalizes `coeffs` at a precision of the caller's choice.
    pub fn with_precision<P: Pixel>(coeffs: Coefficients, precision: u8) -> (r: Result<
        Self,
        ContractViolation,
    >)
        ensures
            match r {
                Ok(guard) => {
                    &&& normalize_violation(coeffs, precision as int, P::max_value()) is None
                    &&& guard.wf()
                    &&& guard@ == normalized(coeffs, precision as nat, P::max_value())
                },
                Err(e) => normalize_violation(coeffs, precision as int, P::max_value()) == Some(e),
            },
    {
        if !check_layout(&coeffs) {
            return Err(ContractViolation::CoefficientsLayout);
        }
        if !precision_fits_exec::<P>(coeffs.window_size, precision) {
            return Err(ContractViolation::AccumulatorOverflow);
        }
        let count: usize = coeffs.bounds.len();
        let mut weights: Vec<Vec<i32>> = Vec::new();
        let mut i: usize = 0;
        while i < count
            invariant
                i <= count == coeffs.bounds.len(),
                layout_ok(coeffs),
                precision_fits(P::max_value(), coeffs.window_size as int, precision as int),
                weights.len() == i,
                forall|j: int|
                    0 <= j < i ==> stored(#[trigger] weights[j]@) == normalized_chunk(
                        coeffs,
                        precision as nat,
                        j,
                    ).weights,
                forall|j: int| 0 <= j < i ==> #[trigger] window_ok(coeffs, precision as nat, j),
            decreases count - i,
        {
            match normalize_chunk(&coeffs, i, precision) {
                Some(window) => {
                    weights.push(window);
                },
                None => {
                    return Err(ContractViolation::WeightOutOfRange);
                },
            }
            i += 1;
        }
        let ghost given = coeffs;
        let Coefficients { values: _, window_size, bounds } = coeffs;
        let max_value: i64 = P::max_i64();
        let guard = NormalizerGuard32 { weights, bounds, window_size, precision, max_value };
        proof {
            P::lemma_max_value_range();
            let want = normalized(given, precision as nat, P::max_value());
            assert forall|j: int| 0 <= j < want.chunks.len() implies #[trigger] guard@.chunks[j]
                == want.chunks[j] by {
                assert(stored(guard.weights[j]@) == want.chunks[j].weights);
                assert(guard@.chunks[j].weights =~= stored(guard.weights[j]@));
            }
            assert(guard@.chunks =~= want.chunks);
            assert forall|j: int| 0 <= j < want.chunks.len() implies (
            #[trigger] want.chunks[j]).weights.len() <= want.window_size
                && want.chunks[j].weight_magnitude() <= want.window_size * pow2(want.precision) by {
                assert(given.bounds[j].size <= given.window_size);
                assert(window_ok(given, precision as nat, j));
            }
            assert forall|j: int, k: int|
                0 <= j < want.chunks.len() && 0 <= k < want.chunks[j].weights.len() implies i32::MIN
                <= #[trigger] want.chunks[j].weights[k] <= i32::MAX by {
                assert(window_ok(given, precision as nat, j));
            }
        }
        Ok(guard)
    }

    /// Normalizes `coeffs` at the precision chosen for the samples of `P` and
    /// the window size of `coeffs`.
    pub fn new<P: Pixel>(coeffs: Coefficients) -> (r: Result<Self, ContractViolation>)
        ensures
            match r {
                Ok(guard) => {
                    &&& new_violation(coeffs, P::max_value()) is None
                    &&& guard.wf()
                    &&& chosen_precision(P::max_value(), coeffs.window_size as int) matches Some(p)
                    &&& guard@ == normalized(coeffs, p, P::max_value())
                },
                Err(e) => new_violation(coeffs, P::max_value()) == Some(e),
            },
    {
        match choose_precision::<P>(coeffs.window_size) {
            Some(precision) => {
                proof {
                    lemma_chosen_precision_fits(P::max_value(), coeffs.window_size as int);
                }
                Self::with_precision::<P>(coeffs, precision)
            },
            None => {
                // Report the layout first, as `with_precision` does.
                match Self::with_precision::<P>(coeffs, 0) {
                    Ok(_) => Err(ContractViolation::AccumulatorOverflow),
                    Err(e) => Err(e),
                }
            },
        }
    }

    /// Fractional bits of the weights.
    pub fn precision(&self) -> (p: u8)
        ensures
            p == self@.precision,
    {
        self.precision
    }

    /// The chunks, one per destination index, in order.
    pub fn normalized_chunks(&self) -> (chunks: Vec<CoefficientsI32Chunk<'_>>)
        requires
            self.wf(),
        ensures
            chunks@.len() == self@.chunks.len(),
            forall|i: int| 0 <= i < chunks@.len() ==> (#[trigger] chunks@[i])@ == self@.chunks[i],
    {
        let count: usize = self.bounds.len();
        let mut chunks: Vec<CoefficientsI32Chunk<'_>> = Vec::new();
        let mut i: usize = 0;
        while i < count
            invariant
                i <= count,
                count == self.bounds.len(),
                self.well_laid_out(),
                chunks@.len() == i,
                forall|j: int| 0 <= j < i ==> (#[trigger] chunks@[j])@ == self@.chunks[j],
            decreases count - i,
        {
            let chunk = CoefficientsI32Chunk {
                start: self.bounds[i].start,
                values: self.weights[i].as_slice(),
            };
            proof {
                assert(chunk@.weights =~= self@.chunks[i as int].weights);
            }
            chunks.push(chunk);
            i += 1;
        }
        chunks
    }

    /// Brings an accumulated sum back to a pixel: drops the fractional bits
    /// and saturates.
    pub fn clip<P: Pixel>(&self, v: i64) -> (p: P)
        requires
            self.wf(),
        ensures
            p.value() == clip(v as int, self@.precision, P::max_value()),
    {
        proof {
            lemma_pow2_fits_i64(self.precision as nat);
        }
        if v < 0 {
            proof {
                lemma_negative_quotient(v as int, pow2(self.precision as nat) as int);
            }
            P::from_i64_saturating(-1)
        } else {
            proof {
                vstd::bits::lemma_u64_shr_is_div(v as u64, self.precision as u64);
            }
            P::from_i64_saturating(((v as u64) >> (self.precision as u64)) as i64)
        }
    }
}

/// Why `coeffs` cannot be normalized for samples of at most `max`, if it
/// cannot: as `normalize_violation` at the chosen precision, with
/// `AccumulatorOverflow` where no precision can be chosen.
pub open spec fn new_violation(coeffs: Coefficients, max: int) -> Option<ContractViolation> {
    match chosen_precision(max, coeffs.window_size as int) {
        Some(p) => normalize_violation(coeffs, p as int, max),
        None => if !layout_ok(coeffs) {
            Some(ContractViolation::CoefficientsLayout)
        } else {
            Some(ContractViolation::AccumulatorOverflow)
        },
    }
}

/// Every chunk of a well-formed normalizer whose window lies inside the source
/// fits: its weights were stored with the headroom the kernels need.
pub proof fn lemma_chunks_fit(view: NormalizedView, source_len: int)
    requires
        view.wf(),
        forall|i: int|
            0 <= i < view.chunks.len() ==> 0 <= (#[trigger] view.chunks[i]).start
                && view.chunks[i].start + view.chunks[i].weights.len() <= source_len,
    ensures
        forall|i: int|
            0 <= i < view.chunks.len() ==> (#[trigger] view.chunks[i]).fits(
                source_len,
                view.precision,
                view.max_value,
            ),
{
    assert forall|i: int| 0 <= i < view.chunks.len() implies (#[trigger] view.chunks[i]).fits(
        source_len,
        view.precision,
        view.max_value,
    ) by {
        let chunk = view.chunks[i];
        let total = chunk.weight_magnitude();
        let room = view.window_size * pow2(view.precision);
        assert(total <= room);
        assert(view.max_value * total <= view.max_value * view.window_size * pow2(
            view.precision,
        )) by (nonlinear_arith)
            requires
                total <= view.window_size * pow2(view.precision),
                0 <= view.max_value,
        ;
        assert forall|k: int| 0 <= k < chunk.weights.len() implies i32::MIN
            <= #[trigger] chunk.weights[k] <= i32::MAX by {
            assert(i32::MIN <= view.chunks[i].weights[k] <= i32::MAX);
        }
    }
}

/// The chosen precision fits, and no larger one does.
pub proof fn lemma_chosen_precision_fits(max: int, window_size: int)
    ensures
        chosen_precision(max, window_size) matches Some(p) ==> {
            &&& precision_fits(max, window_size, p as int)
            &&& forall|q: int| p < q <= MAX_PRECISION ==> !precision_fits(max, window_size, q)
        },
        chosen_precision(max, window_size) is None ==> forall|q: int|
            !precision_fits(max, window_size, q),
{
    lemma_search_precision(max, window_size, MAX_PRECISION as int);
}

/// `search_precision` returns the largest precision up to `from` that fits.
pub proof fn lemma_search_precision(max: int, window_size: int, from: int)
    requires
        from <= MAX_PRECISION,
    ensures
        search_precision(max, window_size, from) matches Some(p) ==> {
            &&& p <= from
            &&& precision_fits(max, window_size, p as int)
            &&& forall|q: int| p < q <= from ==> !precision_fits(max, window_size, q)
        },
        search_precision(max, window_size, from) is None ==> forall|q: int|
            q <= from ==> !precision_fits(max, window_size, q),
    decreases from,
{
    if from >= MIN_PRECISION && !precision_fits(max, window_size, from) {
        lemma_search_precision(max, window_size, from - 1);
    }
}

} // verus!
