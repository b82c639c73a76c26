//! Arithmetic facts behind the kernels' proofs.
use super::optimisations::{ChunkView, NormalizedView};
use super::{
    column, convolved, half_error, is_horiz_convolution, is_vert_convolution, magnitude,
    magnitude_sum, window_magnitude, window_sum,
};
use crate::image_view::{lemma_replace_row, lemma_replace_rows, replace_run, rows_of};
use crate::pixels::{samples, Pixel};
use vstd::arithmetic::power2::{lemma2_to64, lemma2_to64_rest, lemma_pow2_strictly_increases, pow2};
use vstd::prelude::*;

verus! {

/// Powers of two grow with the exponent.
pub proof fn lemma_pow2_monotonic(a: nat, b: nat)
    requires
        a <= b,
    ensures
        0 < pow2(a) <= pow2(b),
{
    vstd::arithmetic::power2::lemma_pow2_pos(a);
    if a < b {
        lemma_pow2_strictly_increases(a, b);
    }
}

/// `2^e` fits a signed 64-bit integer for `e <= 62`.
pub proof fn lemma_pow2_fits_i64(e: nat)
    requires
        e <= 62,
    ensures
        0 < pow2(e) <= 0x4000_0000_0000_0000,
{
    lemma_pow2_monotonic(e, 62);
    lemma2_to64();
    lemma2_to64_rest();
}

/// The triangle inequality, and the two bounds a magnitude puts on its
/// argument.
pub proof fn lemma_magnitude_add(a: int, b: int)
    ensures
        magnitude(a + b) <= magnitude(a) + magnitude(b),
        0 <= magnitude(a),
        0 <= magnitude(b),
        -magnitude(a) <= a <= magnitude(a),
        -magnitude(b) <= b <= magnitude(b),
{
    reveal(magnitude);
}

/// No magnitude is negative.
pub proof fn lemma_magnitude_nonnegative()
    ensures
        forall|v: int| 0 <= #[trigger] magnitude(v),
{
    reveal(magnitude);
}

/// A window's magnitude does not shrink when taps are added to it.
pub proof fn lemma_window_magnitude_grows(t: Seq<int>, start: int, w: Seq<int>, a: int, b: int)
    requires
        a <= b,
    ensures
        0 <= window_magnitude(t, start, w, a) <= window_magnitude(t, start, w, b),
    decreases b - a, b,
{
    if a < b {
        lemma_window_magnitude_grows(t, start, w, a, b - 1);
        if b > 0 {
            lemma_magnitude_add(t[start + b - 1] * w[b - 1], 0);
        }
    } else if a > 0 {
        lemma_window_magnitude_grows(t, start, w, a - 1, a - 1);
        lemma_magnitude_add(t[start + a - 1] * w[a - 1], 0);
    }
}

/// A group of `n` taps that mirrors taps `c` to `c + n` of a window adds to
/// the window what it adds up to by itself.
pub proof fn lemma_window_group(
    samples: Seq<int>,
    start: int,
    weights: Seq<int>,
    c: int,
    n: int,
    t: Seq<int>,
    w: Seq<int>,
)
    requires
        0 <= c,
        0 <= n,
        forall|j: int| 0 <= j < n ==> #[trigger] t[j] == samples[start + c + j],
        forall|j: int| 0 <= j < n ==> #[trigger] w[j] == weights[c + j],
    ensures
        window_sum(samples, start, weights, c + n) == window_sum(samples, start, weights, c)
            + window_sum(t, 0, w, n),
        window_magnitude(samples, start, weights, c + n) == window_magnitude(
            samples,
            start,
            weights,
            c,
        ) + window_magnitude(t, 0, w, n),
    decreases n,
{
    if n > 0 {
        lemma_window_group(samples, start, weights, c, n - 1, t, w);
        assert(t[n - 1] == samples[start + c + (n - 1)]);
        assert(w[n - 1] == weights[c + (n - 1)]);
    }
}

/// Taps whose sample and weight are both zero add nothing to a window.
pub proof fn lemma_window_padding(t: Seq<int>, w: Seq<int>, n: int, m: int)
    requires
        0 <= n <= m,
        forall|j: int| n <= j < m ==> #[trigger] t[j] == 0,
        forall|j: int| n <= j < m ==> #[trigger] w[j] == 0,
    ensures
        window_sum(t, 0, w, m) == window_sum(t, 0, w, n),
        window_magnitude(t, 0, w, m) == window_magnitude(t, 0, w, n),
    decreases m - n,
{
    if n < m {
        lemma_window_padding(t, w, n, m - 1);
        assert(t[m - 1] == 0);
        assert(w[m - 1] == 0);
        assert(t[m - 1] * w[m - 1] == 0) by (nonlinear_arith)
            requires
                t[m - 1] == 0,
        ;
        reveal(magnitude);
    }
}

/// The magnitude of a window is at most the largest sample times the sum of
/// the magnitudes of the weights.
pub proof fn lemma_window_magnitude_bound(
    samples: Seq<int>,
    start: int,
    weights: Seq<int>,
    n: int,
    max: int,
)
    requires
        forall|k: int| 0 <= k < n ==> 0 <= #[trigger] samples[start + k] <= max,
    ensures
        window_magnitude(samples, start, weights, n) <= max * magnitude_sum(weights, n),
    decreases n,
{
    if n > 0 {
        lemma_window_magnitude_bound(samples, start, weights, n - 1, max);
        let s = samples[start + (n - 1)];
        let w = weights[n - 1];
        assert(0 <= s <= max);
        reveal(magnitude);
        assert(magnitude(s * w) <= max * magnitude(w)) by (nonlinear_arith)
            requires
                0 <= s <= max,
                magnitude(s * w) == if s * w < 0 {
                    -(s * w)
                } else {
                    s * w
                },
                magnitude(w) == if w < 0 {
                    -w
                } else {
                    w
                },
        ;
        assert(max * (magnitude_sum(weights, n - 1) + magnitude(w)) == max * magnitude_sum(
            weights,
            n - 1,
        ) + max * magnitude(w)) by (nonlinear_arith);
    } else {
        assert(max * 0 == 0);
    }
}

/// No partial sum of a window exceeds the window's magnitude.
pub proof fn lemma_window_sum_bound(samples: Seq<int>, start: int, weights: Seq<int>, n: int)
    ensures
        -window_magnitude(samples, start, weights, n) <= window_sum(samples, start, weights, n)
            <= window_magnitude(samples, start, weights, n),
    decreases n,
{
    if n > 0 {
        lemma_window_sum_bound(samples, start, weights, n - 1);
        lemma_magnitude_add(samples[start + n - 1] * weights[n - 1], 0);
    }
}

/// Whether every entry of `samples` is a sample of at most `max`.
pub open spec fn in_range(samples: Seq<int>, max: int) -> bool {
    forall|i: int| 0 <= i < samples.len() ==> 0 <= #[trigger] samples[i] <= max
}

/// The samples of pixels are in the range of the pixel type.
pub proof fn lemma_samples_in_range<P: Pixel>(pixels: Seq<P>)
    ensures
        in_range(samples(pixels), P::max_value()),
        samples(pixels).len() == pixels.len(),
{
    assert forall|i: int| 0 <= i < samples(pixels).len() implies 0 <= #[trigger] samples(
        pixels,
    )[i] <= P::max_value() by {
        pixels[i].lemma_value_range();
    }
}

/// The samples of a column of pixels are in the range of the pixel type.
pub proof fn lemma_column_in_range<P: Pixel>(image: Seq<Seq<P>>, x: int)
    ensures
        in_range(column(image, x), P::max_value()),
        column(image, x).len() == image.len(),
{
    assert forall|y: int| 0 <= y < column(image, x).len() implies 0 <= #[trigger] column(
        image,
        x,
    )[y] <= P::max_value() by {
        image[y][x].lemma_value_range();
    }
}

/// No partial sum of a chunk that fits leaves the accumulator: the magnitude
/// of the window grows with the taps consumed, and with all of them consumed
/// and the rounding constant on top it is still inside 64 bits.
pub proof fn lemma_chunk_headroom(
    samples: Seq<int>,
    chunk: ChunkView,
    precision: nat,
    max: int,
    consumed: int,
)
    requires
        in_range(samples, max),
        chunk.fits(samples.len() as int, precision, max),
        0 <= consumed <= chunk.weights.len(),
    ensures
        0 <= window_magnitude(samples, chunk.start, chunk.weights, consumed) <= window_magnitude(
            samples,
            chunk.start,
            chunk.weights,
            chunk.weights.len() as int,
        ),
        window_magnitude(samples, chunk.start, chunk.weights, chunk.weights.len() as int)
            + half_error(precision) <= i64::MAX,
        -window_magnitude(samples, chunk.start, chunk.weights, consumed) <= window_sum(
            samples,
            chunk.start,
            chunk.weights,
            consumed,
        ) <= window_magnitude(samples, chunk.start, chunk.weights, consumed),
        0 < half_error(precision),
{
    let n = chunk.weights.len() as int;
    lemma_window_magnitude_grows(samples, chunk.start, chunk.weights, consumed, n);
    assert forall|k: int| 0 <= k < n implies 0 <= #[trigger] samples[chunk.start + k] <= max by {}
    lemma_window_magnitude_bound(samples, chunk.start, chunk.weights, n, max);
    lemma_window_sum_bound(samples, chunk.start, chunk.weights, consumed);
    vstd::arithmetic::power2::lemma_pow2_pos((precision - 1) as nat);
}

/// A group that mirrors taps `done` to `done + width` of a chunk takes a
/// window from `done` taps to `done + width`, and has the headroom to do so.
pub proof fn lemma_group_step(
    samples: Seq<int>,
    chunk: ChunkView,
    precision: nat,
    max: int,
    done: int,
    width: int,
    k: Seq<int>,
)
    requires
        in_range(samples, max),
        chunk.fits(samples.len() as int, precision, max),
        0 <= done,
        0 <= width,
        done + width <= chunk.weights.len(),
        forall|j: int| 0 <= j < width ==> #[trigger] k[j] == chunk.weights[done + j],
    ensures
        window_sum(samples, chunk.start, chunk.weights, done + width) == window_sum(
            samples,
            chunk.start,
            chunk.weights,
            done,
        ) + window_sum(samples, chunk.start + done, k, width),
        window_magnitude(samples, chunk.start, chunk.weights, done + width) == window_magnitude(
            samples,
            chunk.start,
            chunk.weights,
            done,
        ) + window_magnitude(samples, chunk.start + done, k, width),
        window_magnitude(samples, chunk.start, chunk.weights, done + width) + half_error(
            precision,
        ) <= i64::MAX,
{
    let t = Seq::new(width as nat, |j: int| samples[chunk.start + done + j]);
    lemma_window_group(samples, chunk.start, chunk.weights, done, width, t, k);
    lemma_window_group(samples, chunk.start + done, k, 0, width, t, k);
    lemma_chunk_headroom(samples, chunk, precision, max, done + width);
}

/// A horizontal pass that has written the rows above row `y` has written the
/// rows above row `y + count` once the `count` rows of `block` are in place,
/// if `block` is the pass over the source rows that face it.
pub proof fn lemma_horiz_rows_done<P: Pixel>(
    src: Seq<Seq<P>>,
    before: Seq<P>,
    block: Seq<P>,
    width: nat,
    height: nat,
    y: int,
    count: int,
    offset: int,
    normalized: NormalizedView,
)
    requires
        before.len() == width * height,
        0 <= y,
        0 <= count,
        y + count <= height,
        block.len() == count * width,
        is_horiz_convolution(src, rows_of(before, width, height).take(y), offset, normalized),
        is_horiz_convolution(src, rows_of(block, width, count as nat), y + offset, normalized),
    ensures
        replace_run(before, y * width, block).len() == before.len(),
        is_horiz_convolution(
            src,
            rows_of(replace_run(before, y * width, block), width, height).take(y + count),
            offset,
            normalized,
        ),
{
    lemma_replace_rows(before, width, height, y, count, block);
    let after = rows_of(replace_run(before, y * width, block), width, height);
    assert forall|r: int, x: int|
        0 <= r < after.take(y + count).len() && 0 <= x < normalized.chunks.len() implies (
    #[trigger] after.take(y + count)[r][x]).value() == convolved(
        samples(src[r + offset]),
        normalized.chunks[x].start,
        normalized.chunks[x].weights,
        normalized.precision,
        normalized.max_value,
    ) by {
        if r < y {
            assert(after[r] == rows_of(before, width, height).take(y)[r]);
        } else {
            assert(after[r] == rows_of(block, width, count as nat)[r - y]);
        }
    }
}

/// A horizontal pass that has written the rows above row `y` has written the
/// rows above row `y + 1` once `row` is in place, if every pixel of `row` is
/// the convolved sample of its chunk over the source row that faces it.
pub proof fn lemma_horiz_row_done<P: Pixel>(
    src: Seq<Seq<P>>,
    before: Seq<P>,
    row: Seq<P>,
    width: nat,
    height: nat,
    y: int,
    offset: int,
    normalized: NormalizedView,
)
    requires
        before.len() == width * height,
        0 <= y < height,
        row.len() == width,
        normalized.chunks.len() == width,
        is_horiz_convolution(src, rows_of(before, width, height).take(y), offset, normalized),
        forall|x: int|
            0 <= x < width ==> (#[trigger] row[x]).value() == convolved(
                samples(src[y + offset]),
                normalized.chunks[x].start,
                normalized.chunks[x].weights,
                normalized.precision,
                normalized.max_value,
            ),
    ensures
        replace_run(before, y * width, row).len() == before.len(),
        is_horiz_convolution(
            src,
            rows_of(replace_run(before, y * width, row), width, height).take(y + 1),
            offset,
            normalized,
        ),
{
    lemma_replace_row(before, width, height, y, row);
    let after = rows_of(replace_run(before, y * width, row), width, height);
    assert forall|r: int, x: int|
        0 <= r < after.take(y + 1).len() && 0 <= x < normalized.chunks.len() implies (
    #[trigger] after.take(y + 1)[r][x]).value() == convolved(
        samples(src[r + offset]),
        normalized.chunks[x].start,
        normalized.chunks[x].weights,
        normalized.precision,
        normalized.max_value,
    ) by {
        if r < y {
            assert(after[r] == rows_of(before, width, height).take(y)[r]);
        }
    }
}

/// A vertical pass that has written the rows above row `y` has written the
/// rows above row `y + 1` once `row` is in place, if every pixel of `row` is
/// the convolved sample of chunk `y` over the source column that faces it.
pub proof fn lemma_vert_row_done<P: Pixel>(
    src: Seq<Seq<P>>,
    before: Seq<P>,
    row: Seq<P>,
    width: nat,
    height: nat,
    y: int,
    normalized: NormalizedView,
)
    requires
        before.len() == width * height,
        0 <= y < height,
        row.len() == width,
        is_vert_convolution(src, rows_of(before, width, height).take(y), width as int, normalized),
        forall|x: int|
            0 <= x < width ==> (#[trigger] row[x]).value() == convolved(
                column(src, x),
                normalized.chunks[y].start,
                normalized.chunks[y].weights,
                normalized.precision,
                normalized.max_value,
            ),
    ensures
        replace_run(before, y * width, row).len() == before.len(),
        is_vert_convolution(
            src,
            rows_of(replace_run(before, y * width, row), width, height).take(y + 1),
            width as int,
            normalized,
        ),
{
    lemma_replace_row(before, width, height, y, row);
    let after = rows_of(replace_run(before, y * width, row), width, height);
    assert forall|r: int, x: int|
        0 <= r < after.take(y + 1).len() && 0 <= x < width implies (#[trigger] after.take(
            y + 1,
        )[r][x]).value() == convolved(
        column(src, x),
        normalized.chunks[r].start,
        normalized.chunks[r].weights,
        normalized.precision,
        normalized.max_value,
    ) by {
        if r < y {
            assert(after[r] == rows_of(before, width, height).take(y)[r]);
        }
    }
}

/// One more weight adds its magnitude to the sum.
pub proof fn lemma_magnitude_sum_step(weights: Seq<int>, n: int)
    requires
        0 <= n,
    ensures
        magnitude_sum(weights, n + 1) == magnitude_sum(weights, n) + magnitude(weights[n]),
{
}

/// A negative number divided by a positive one, rounding down, is negative.
pub proof fn lemma_negative_quotient(v: int, d: int)
    requires
        v < 0,
        0 < d,
    ensures
        v / d < 0,
{
    vstd::arithmetic::div_mod::lemma_fundamental_div_mod(v, d);
    vstd::arithmetic::div_mod::lemma_mod_bound(v, d);
    assert(v / d < 0) by (nonlinear_arith)
        requires
            v == d * (v / d) + v % d,
            0 <= v % d < d,
            v < 0,
            0 < d,
    ;
}

} // verus!
