//! Borrowed windows over row-major pixel buffers.
//!
//! A view never copies a pixel. It hands out single rows, and batches of four
//! neighbouring rows for the kernels that walk one coefficient chunk across
//! four rows at a time.
use crate::pixels::Pixel;
use vstd::prelude::*;

verus! {

/// A row-major buffer of `height` rows of `width` pixels, cut into its rows.
pub open spec fn rows_of<P>(pixels: Seq<P>, width: nat, height: nat) -> Seq<Seq<P>> {
    Seq::new(height, |y: int| pixels.subrange(y * width, (y + 1) * width))
}

/// `pixels` with the `row.len()` entries from `at` on replaced by `row`.
pub open spec fn replace_run<P>(pixels: Seq<P>, at: int, row: Seq<P>) -> Seq<P> {
    pixels.subrange(0, at) + row + pixels.subrange(at + row.len(), pixels.len() as int)
}

/// Where row `y` of a buffer lies.
pub proof fn lemma_row_range(width: nat, height: nat, y: int)
    requires
        0 <= y < height,
    ensures
        0 <= y * width,
        (y + 1) * width == y * width + width,
        (y + 1) * width <= height * width,
        height * width == width * height,
{
    assert(0 <= y * width) by (nonlinear_arith)
        requires
            0 <= y,
            0 <= width,
    ;
    assert((y + 1) * width == y * width + width) by (nonlinear_arith);
    assert((y + 1) * width <= height * width) by (nonlinear_arith)
        requires
            y + 1 <= height,
            0 <= width,
    ;
    assert(height * width == width * height) by (nonlinear_arith);
}

/// Where `count` rows from row `y` on lie.
pub proof fn lemma_rows_range(width: nat, height: nat, y: int, count: int)
    requires
        0 <= y,
        0 <= count,
        y + count <= height,
    ensures
        0 <= y * width,
        (y + count) * width == y * width + count * width,
        (y + count) * width <= height * width,
        height * width == width * height,
        0 <= count * width,
{
    assert(0 <= y * width) by (nonlinear_arith)
        requires
            0 <= y,
            0 <= width,
    ;
    assert(0 <= count * width) by (nonlinear_arith)
        requires
            0 <= count,
            0 <= width,
    ;
    assert((y + count) * width == y * width + count * width) by (nonlinear_arith);
    assert((y + count) * width <= height * width) by (nonlinear_arith)
        requires
            y + count <= height,
            0 <= width,
    ;
    assert(height * width == width * height) by (nonlinear_arith);
}

/// Replacing `count` whole rows of a buffer changes those rows and no
/// others.
pub proof fn lemma_replace_rows<P>(
    pixels: Seq<P>,
    width: nat,
    height: nat,
    y: int,
    count: int,
    block: Seq<P>,
)
    requires
        pixels.len() == width * height,
        0 <= y,
        0 <= count,
        y + count <= height,
        block.len() == count * width,
    ensures
        replace_run(pixels, y * width, block).len() == pixels.len(),
        forall|r: int|
            0 <= r < height ==> #[trigger] rows_of(
                replace_run(pixels, y * width, block),
                width,
                height,
            )[r] == if y <= r < y + count {
                rows_of(block, width, count as nat)[r - y]
            } else {
                rows_of(pixels, width, height)[r]
            },
{
    lemma_rows_range(width, height, y, count);
    let replaced = replace_run(pixels, y * width, block);
    assert forall|r: int| 0 <= r < height implies #[trigger] rows_of(replaced, width, height)[r]
        == if y <= r < y + count {
        rows_of(block, width, count as nat)[r - y]
    } else {
        rows_of(pixels, width, height)[r]
    } by {
        lemma_row_range(width, height, r);
        if y <= r < y + count {
            lemma_row_range(width, count as nat, r - y);
            assert((r - y) * width == r * width - y * width) by (nonlinear_arith);
            assert(rows_of(replaced, width, height)[r] =~= rows_of(block, width, count as nat)[r
                - y]);
        } else if r < y {
            assert((r + 1) * width <= y * width) by (nonlinear_arith)
                requires
                    r + 1 <= y,
                    0 <= width,
            ;
            assert(rows_of(replaced, width, height)[r] =~= rows_of(pixels, width, height)[r]);
        } else {
            assert((y + count) * width <= r * width) by (nonlinear_arith)
                requires
                    y + count <= r,
                    0 <= width,
            ;
            assert(rows_of(replaced, width, height)[r] =~= rows_of(pixels, width, height)[r]);
        }
    }
}

/// Replacing one whole row of a buffer changes that row and no other.
pub proof fn lemma_replace_row<P>(pixels: Seq<P>, width: nat, height: nat, y: int, row: Seq<P>)
    requires
        pixels.len() == width * height,
        0 <= y < height,
        row.len() == width,
    ensures
        replace_run(pixels, y * width, row).len() == pixels.len(),
        rows_of(replace_run(pixels, y * width, row), width, height) == rows_of(
            pixels,
            width,
            height,
        ).update(y, row),
{
    assert(1 * width == width) by (nonlinear_arith);
    lemma_replace_rows(pixels, width, height, y, 1, row);
    let after = rows_of(replace_run(pixels, y * width, row), width, height);
    let want = rows_of(pixels, width, height).update(y, row);
    assert forall|r: int| 0 <= r < height implies #[trigger] after[r] == want[r] by {
        if r == y {
            assert(rows_of(row, width, 1)[0] =~= row);
        }
    }
    assert(after =~= want);
}

/// Storing one pixel of a buffer changes that pixel of that row and nothing
/// else.
pub proof fn lemma_update_pixel<P>(
    pixels: Seq<P>,
    width: nat,
    height: nat,
    y: int,
    x: int,
    pixel: P,
)
    requires
        pixels.len() == width * height,
        0 <= y < height,
        0 <= x < width,
    ensures
        0 <= y * width + x < pixels.len(),
        rows_of(pixels, width, height)[y][x] == pixels[y * width + x],
        rows_of(pixels.update(y * width + x, pixel), width, height) == rows_of(
            pixels,
            width,
            height,
        ).update(y, rows_of(pixels, width, height)[y].update(x, pixel)),
{
    lemma_row_range(width, height, y);
    let before = rows_of(pixels, width, height);
    let after = rows_of(pixels.update(y * width + x, pixel), width, height);
    assert forall|r: int| 0 <= r < height implies #[trigger] after[r] == before.update(
        y,
        before[y].update(x, pixel),
    )[r] by {
        lemma_row_range(width, height, r);
        if r == y {
            assert(after[r] =~= before[y].update(x, pixel));
        } else if r < y {
            assert((r + 1) * width <= y * width) by (nonlinear_arith)
                requires
                    r + 1 <= y,
                    0 <= width,
            ;
            assert(after[r] =~= before[r]);
        } else {
            assert((y + 1) * width <= r * width) by (nonlinear_arith)
                requires
                    y + 1 <= r,
                    0 <= width,
            ;
            assert(after[r] =~= before[r]);
        }
    }
    assert(after =~= before.update(y, before[y].update(x, pixel)));
}

/// Two buffers of the same shape with the same rows are the same buffer.
pub proof fn lemma_rows_determine_buffer<P>(a: Seq<P>, b: Seq<P>, width: nat, height: nat)
    requires
        a.len() == width * height,
        b.len() == width * height,
        forall|y: int, x: int|
            0 <= y < height && 0 <= x < width ==> #[trigger] rows_of(a, width, height)[y][x]
                == rows_of(b, width, height)[y][x],
    ensures
        a == b,
{
    assert forall|i: int| 0 <= i < a.len() implies a[i] == b[i] by {
        assert(width > 0) by (nonlinear_arith)
            requires
                0 <= i < width * height,
                0 <= width,
                0 <= height,
        ;
        let y = i / (width as int);
        let x = i % (width as int);
        vstd::arithmetic::div_mod::lemma_fundamental_div_mod(i, width as int);
        vstd::arithmetic::div_mod::lemma_mod_bound(i, width as int);
        assert(0 <= y < height) by (nonlinear_arith)
            requires
                i == width * y + x,
                0 <= x < width,
                0 <= i < width * height,
                0 <= height,
        ;
        assert(width * y == y * width) by (nonlinear_arith);
        lemma_row_range(width, height, y);
        assert(rows_of(a, width, height)[y][x] == a[i]);
        assert(rows_of(b, width, height)[y][x] == b[i]);
    }
    assert(a =~= b);
}

/// Four neighbouring rows of a source image, top to bottom.
pub type FourRows<'a, P> = [&'a [P]; 4];

/// A read-only view of `height` rows of `width` pixels.
#[derive(Clone, Copy)]
pub struct TypedImageView<'a, P: Pixel> {
    width: u32,
    height: u32,
    pixels: &'a [P],
}

impl<'a, P: Pixel> View for TypedImageView<'a, P> {
    type V = Seq<Seq<P>>;

    /// The rows of the image, top to bottom.
    closed spec fn view(&self) -> Seq<Seq<P>> {
        rows_of(self.pixels@, self.width as nat, self.height as nat)
    }
}

impl<'a, P: Pixel> TypedImageView<'a, P> {
    /// Pixels per row.
    pub closed spec fn spec_width(&self) -> nat {
        self.width as nat
    }

    /// Number of rows.
    pub closed spec fn spec_height(&self) -> nat {
        self.height as nat
    }

    /// The buffer holds exactly `width * height` pixels.
    pub closed spec fn wf(&self) -> bool {
        self.pixels@.len() == self.width * self.height
    }

    /// A well-formed view has `height` rows of `width` pixels each.
    pub proof fn lemma_shape(&self)
        requires
            self.wf(),
        ensures
            self@.len() == self.spec_height(),
            forall|y: int|
                0 <= y < self.spec_height() ==> (#[trigger] self@[y]).len() == self.spec_width(),
    {
        assert forall|y: int| 0 <= y < self.spec_height() implies (#[trigger] self@[y]).len()
            == self.spec_width() by {
            lemma_row_range(self.width as nat, self.height as nat, y);
        }
    }

    /// A view of `pixels` as `height` rows of `width`. `None` unless the buffer
    /// holds exactly `width * height` pixels.
    pub fn new(width: u32, height: u32, pixels: &'a [P]) -> (r: Option<Self>)
        ensures
            r is Some <==> pixels@.len() == width * height,
            r matches Some(image) ==> {
                &&& image.wf()
                &&& image.spec_width() == width
                &&& image.spec_height() == height
                &&& image@ == rows_of(pixels@, width as nat, height as nat)
            },
    {
        proof {
            assert(0 <= width * height <= 0xFFFF_FFFF * 0xFFFF_FFFF) by (nonlinear_arith)
                requires
                    0 <= width <= 0xFFFF_FFFF,
                    0 <= height <= 0xFFFF_FFFF,
            ;
        }
        if pixels.len() as u128 == (width as u128) * (height as u128) {
            Some(TypedImageView { width, height, pixels })
        } else {
            None
        }
    }

    /// Pixels per row.
    pub fn width(&self) -> (w: u32)
        ensures
            w == self.spec_width(),
    {
        self.width
    }

    /// Number of rows.
    pub fn height(&self) -> (h: u32)
        ensures
            h == self.spec_height(),
    {
        self.height
    }

    /// Row `y`, or `None` past the last row.
    pub fn get_row(&self, y: u32) -> (r: Option<&'a [P]>)
        requires
            self.wf(),
        ensures
            r is Some <==> y < self.spec_height(),
            r matches Some(row) ==> row@ == self@[y as int] && row@.len() == self.spec_width(),
    {
        if y >= self.height {
            return None;
        }
        proof {
            lemma_row_range(self.width as nat, self.height as nat, y as int);
        }
        let len: usize = self.pixels.len();
        let width: usize = self.width as usize;
        let from: usize = (y as usize) * width;
        Some(vstd::slice::slice_subrange(self.pixels, from, from + width))
    }

    /// Rows `y` to `y + 3`, or `None` where fewer than four rows are left.
    pub fn four_rows(&self, y: u32) -> (r: Option<FourRows<'a, P>>)
        requires
            self.wf(),
        ensures
            r is Some <==> y + 4 <= self.spec_height(),
            r matches Some(rows) ==> forall|i: int|
                0 <= i < 4 ==> (#[trigger] rows[i])@ == self@[y + i] && rows[i]@.len()
                    == self.spec_width(),
    {
        if self.height < 4 || y > self.height - 4 {
            return None;
        }
        let r0: &'a [P] = self.get_row(y).unwrap();
        let r1: &'a [P] = self.get_row(y + 1).unwrap();
        let r2: &'a [P] = self.get_row(y + 2).unwrap();
        let r3: &'a [P] = self.get_row(y + 3).unwrap();
        Some([r0, r1, r2, r3])
    }
}

/// Four neighbouring rows of a destination image, borrowed for writing.
pub struct FourRowsMut<'a, P: Pixel> {
    width: usize,
    pixels: &'a mut [P],
}

impl<'a, P: Pixel> FourRowsMut<'a, P> {
    /// The borrowed pixels: four rows, one after the other.
    pub closed spec fn buffer(self) -> &'a mut [P] {
        self.pixels
    }

    /// Pixels per row.
    pub closed spec fn spec_width(&self) -> nat {
        self.width as nat
    }

    /// The buffer holds exactly four rows.
    pub closed spec fn wf(&self) -> bool {
        self.pixels@.len() == 4 * self.width
    }

    /// The four rows as they stand, top to bottom.
    pub closed spec fn rows(&self) -> Seq<Seq<P>> {
        rows_of(self.pixels@, self.width as nat, 4)
    }

    /// What `rows` is made of.
    pub proof fn lemma_rows(self)
        requires
            self.wf(),
        ensures
            self.rows() == rows_of(self.buffer()@, self.spec_width(), 4),
            self.buffer()@.len() == 4 * self.spec_width(),
            self.rows().len() == 4,
            forall|i: int| 0 <= i < 4 ==> (#[trigger] self.rows()[i]).len() == self.spec_width(),
    {
        assert forall|i: int| 0 <= i < 4 implies (#[trigger] self.rows()[i]).len()
            == self.spec_width() by {
            lemma_row_range(self.width as nat, 4, i);
        }
    }

    /// Once nothing writes through the batch any more, the rows as they stand
    /// are what the lender of the buffer gets back.
    pub proof fn lemma_resolved(self)
        requires
            has_resolved(self),
        ensures
            final(self.buffer())@ == self.buffer()@,
    {
    }

    /// Pixels per row.
    pub fn width(&self) -> (w: usize)
        ensures
            w == self.spec_width(),
    {
        self.width
    }

    /// Stores `pixel` at column `x` of row `i`.
    pub fn set(&mut self, i: usize, x: usize, pixel: P)
        requires
            old(self).wf(),
            i < 4,
            x < old(self).spec_width(),
        ensures
            final(self).wf(),
            final(self).spec_width() == old(self).spec_width(),
            final(self).rows() == old(self).rows().update(
                i as int,
                old(self).rows()[i as int].update(x as int, pixel),
            ),
            final(final(self).buffer())@ == final(old(self).buffer())@,
    {
        let len: usize = self.pixels.len();
        proof {
            lemma_update_pixel(self.pixels@, self.width as nat, 4, i as int, x as int, pixel);
            assert(0 <= i * self.width && i * self.width + x < 4 * self.width)
                by (nonlinear_arith)
                requires
                    0 <= i <= 3,
                    0 <= x < self.width,
            ;
        }
        let at: usize = i * self.width + x;
        self.pixels[at] = pixel;
    }
}

/// A view of `height` rows of `width` pixels, borrowed for writing.
pub struct TypedImageViewMut<'a, P: Pixel> {
    width: u32,
    height: u32,
    pixels: &'a mut [P],
}

impl<'a, P: Pixel> TypedImageViewMut<'a, P> {
    /// The borrowed pixels, row after row. What a caller finds in its buffer
    /// once the view is gone is `final(view.buffer())`.
    pub closed spec fn buffer(self) -> &'a mut [P] {
        self.pixels
    }

    /// Pixels per row.
    pub closed spec fn spec_width(&self) -> nat {
        self.width as nat
    }

    /// Number of rows.
    pub closed spec fn spec_height(&self) -> nat {
        self.height as nat
    }

    /// The buffer holds exactly `width * height` pixels.
    pub closed spec fn wf(&self) -> bool {
        self.pixels@.len() == self.width * self.height
    }

    /// The buffer of a well-formed view holds `width * height` pixels.
    pub proof fn lemma_buffer_len(self)
        requires
            self.wf(),
        ensures
            self.buffer()@.len() == self.spec_width() * self.spec_height(),
    {
    }

    /// Once nothing writes through the view any more, the pixels as they
    /// stand are what the lender of the buffer gets back.
    pub proof fn lemma_resolved(self)
        requires
            has_resolved(self),
        ensures
            final(self.buffer())@ == self.buffer()@,
    {
    }

    /// A view of `pixels` as `height` rows of `width`. `None` unless the buffer
    /// holds exactly `width * height` pixels.
    pub fn new(width: u32, height: u32, pixels: &'a mut [P]) -> (r: Option<Self>)
        ensures
            r is Some <==> old(pixels)@.len() == width * height,
            r matches Some(image) ==> {
                &&& image.wf()
                &&& image.spec_width() == width
                &&& image.spec_height() == height
                &&& image.buffer()@ == old(pixels)@
                &&& final(image.buffer())@ == final(pixels)@
            },
            r is None ==> final(pixels)@ == old(pixels)@,
    {
        proof {
            assert(0 <= width * height <= 0xFFFF_FFFF * 0xFFFF_FFFF) by (nonlinear_arith)
                requires
                    0 <= width <= 0xFFFF_FFFF,
                    0 <= height <= 0xFFFF_FFFF,
            ;
        }
        if pixels.len() as u128 == (width as u128) * (height as u128) {
            Some(TypedImageViewMut { width, height, pixels })
        } else {
            None
        }
    }

    /// Pixels per row.
    pub fn width(&self) -> (w: u32)
        ensures
            w == self.spec_width(),
    {
        self.width
    }

    /// Number of rows.
    pub fn height(&self) -> (h: u32)
        ensures
            h == self.spec_height(),
    {
        self.height
    }

    /// Row `y`, borrowed for writing, or `None` past the last row. Whatever
    /// is written to the row is written to the image, and nothing else is.
    pub fn get_row_mut(&mut self, y: u32) -> (r: Option<&mut [P]>)
        requires
            old(self).wf(),
        ensures
            r is Some <==> y < old(self).spec_height(),
            final(self).buffer()@.len() == old(self).buffer()@.len() ==> final(self).wf(),
            final(self).spec_width() == old(self).spec_width(),
            final(self).spec_height() == old(self).spec_height(),
            final(final(self).buffer())@ == final(old(self).buffer())@,
            r is None ==> final(self).buffer()@ == old(self).buffer()@,
            r matches Some(row) ==> {
                &&& row@ == rows_of(
                    old(self).buffer()@,
                    old(self).spec_width(),
                    old(self).spec_height(),
                )[y as int]
                &&& row@.len() == old(self).spec_width()
                &&& final(row)@.len() == row@.len() ==> final(self).buffer()@ == replace_run(
                    old(self).buffer()@,
                    y * old(self).spec_width(),
                    final(row)@,
                )
            },
    {
        if y >= self.height {
            return None;
        }
        proof {
            lemma_row_range(self.width as nat, self.height as nat, y as int);
        }
        let len: usize = self.pixels.len();
        let width: usize = self.width as usize;
        let from: usize = (y as usize) * width;
        let (_, rest) = self.pixels.split_at_mut(from);
        let (row, _) = rest.split_at_mut(width);
        proof {
            assert(row@ =~= rows_of(
                old(self).buffer()@,
                old(self).spec_width(),
                old(self).spec_height(),
            )[y as int]);
        }
        Some(row)
    }

    /// Rows `y` to `y + 3`, borrowed for writing, or `None` where fewer than
    /// four rows are left.
    pub fn four_rows_mut(&mut self, y: u32) -> (r: Option<FourRowsMut<'_, P>>)
        requires
            old(self).wf(),
        ensures
            r is Some <==> y + 4 <= old(self).spec_height(),
            final(self).buffer()@.len() == old(self).buffer()@.len() ==> final(self).wf(),
            final(self).spec_width() == old(self).spec_width(),
            final(self).spec_height() == old(self).spec_height(),
            final(final(self).buffer())@ == final(old(self).buffer())@,
            r is None ==> final(self).buffer()@ == old(self).buffer()@,
            r matches Some(rows) ==> {
                &&& rows.wf()
                &&& rows.spec_width() == old(self).spec_width()
                &&& rows.buffer()@ == old(self).buffer()@.subrange(
                    y * old(self).spec_width(),
                    (y + 4) * old(self).spec_width(),
                )
                &&& final(rows.buffer())@.len() == rows.buffer()@.len() ==> final(self).buffer()@
                    == replace_run(
                    old(self).buffer()@,
                    y * old(self).spec_width(),
                    final(rows.buffer())@,
                )
            },
    {
        if self.height < 4 || y > self.height - 4 {
            return None;
        }
        proof {
            lemma_rows_range(self.width as nat, self.height as nat, y as int, 4);
        }
        let len: usize = self.pixels.len();
        let width: usize = self.width as usize;
        let from: usize = (y as usize) * width;
        let (_, rest) = self.pixels.split_at_mut(from);
        let (block, _) = rest.split_at_mut(4 * width);
        proof {
            assert(block@ =~= old(self).buffer()@.subrange(
                y * old(self).spec_width(),
                (y + 4) * old(self).spec_width(),
            ));
        }
        Some(FourRowsMut { width, pixels: block })
    }
}

} // verus!
