//! A two-dimensional raster of pixels with its origin in the top left corner.

use vstd::prelude::*;

verus! {

/// An image is a grid of `height` rows of `width` pixels each, stored row by
/// row from the top. Its shape is fixed when it is constructed.
#[derive(Debug)]
pub struct Image<P> {
    width: usize,
    height: usize,
    pixels: Vec<P>,
}

impl<P> View for Image<P> {
    type V = Seq<Seq<P>>;

    /// The rows of the image from top to bottom, each from left to right.
    closed spec fn view(&self) -> Seq<Seq<P>> {
        Seq::new(
            self.height as nat,
            |r: int| Seq::new(self.width as nat, |c: int| self.pixels@[r * self.width + c]),
        )
    }
}

/// Cell `(row, col)` of a grid `width` wide lies inside a store of
/// `width * height` cells, and distinct cells lie at distinct offsets.
proof fn lemma_cell_offset(width: int, height: int, row: int, col: int)
    requires
        0 <= row < height,
        0 <= col < width,
    ensures
        0 <= row * width + col < width * height,
        row * width + width <= width * height,
        0 <= row * width,
{
    assert(row * width + width == (row + 1) * width) by (nonlinear_arith);
    assert((row + 1) * width <= height * width) by (nonlinear_arith)
        requires
            row + 1 <= height,
            0 <= width,
    ;
    assert(height * width == width * height) by (nonlinear_arith);
    assert(0 <= row * width) by (nonlinear_arith)
        requires
            0 <= row,
            0 <= width,
    ;
}

/// An offset into the store names exactly one cell.
proof fn lemma_offset_unique(width: int, r1: int, c1: int, r2: int, c2: int)
    requires
        0 <= c1 < width,
        0 <= c2 < width,
        r1 * width + c1 == r2 * width + c2,
    ensures
        r1 == r2,
        c1 == c2,
{
    if r1 < r2 {
        assert(r1 * width + width <= r2 * width) by (nonlinear_arith)
            requires
                r1 + 1 <= r2,
                0 <= width,
        ;
    } else if r2 < r1 {
        assert(r2 * width + width <= r1 * width) by (nonlinear_arith)
            requires
                r2 + 1 <= r1,
                0 <= width,
        ;
    }
}

impl<P> Image<P> {
    #[verifier::type_invariant]
    spec fn well_formed(self) -> bool {
        &&& 0 < self.width
        &&& 0 < self.height
        &&& self.pixels@.len() == self.width * self.height
    }

    /// In a well-formed image the offset of every cell fits in `usize`.
    proof fn lemma_in_store(self, row: int, col: int)
        requires
            self.well_formed(),
            0 <= row < self.height,
            0 <= col < self.width,
        ensures
            0 <= row * self.width,
            0 <= row * self.width + col < self.pixels@.len(),
            row * self.width + self.width <= self.pixels@.len(),
            self.pixels@.len() <= usize::MAX,
    {
        vstd::std_specs::vec::axiom_spec_len(&self.pixels);
        lemma_cell_offset(self.width as int, self.height as int, row, col);
    }
}

impl<P: Copy> Image<P> {
    /// The number of columns.
    pub closed spec fn spec_width(self) -> nat {
        self.width as nat
    }

    /// The number of rows.
    pub closed spec fn spec_height(self) -> nat {
        self.height as nat
    }

    /// The view has `spec_height()` rows of `spec_width()` pixels each.
    pub proof fn lemma_shape(self)
        ensures
            self@.len() == self.spec_height(),
            forall|r: int| 0 <= r < self.spec_height() ==> (#[trigger] self@[r]).len() == self.spec_width(),
    {
    }

    /// Constructs an image of the given size in which every pixel is the
    /// default pixel.
    pub fn new(width: usize, height: usize) -> (image: Self) where P: Default
        requires
            0 < width,
            0 < height,
            width * height <= usize::MAX,
        ensures
            image.spec_width() == width,
            image.spec_height() == height,
            image@.len() == height,
            forall|r: int| 0 <= r < height ==> (#[trigger] image@[r]).len() == width,
            forall|r: int, c: int|
                0 <= r < height && 0 <= c < width ==> call_ensures(
                    P::default,
                    (),
                    #[trigger] image@[r][c],
                ),
            forall|r: int, c: int|
                0 <= r < height && 0 <= c < width ==> #[trigger] image@[r][c] == image@[0][0],
    {
        let fill = P::default();
        let total: usize = width * height;
        let mut pixels: Vec<P> = Vec::new();
        let mut n: usize = 0;
        while n < total
            invariant
                n <= total,
                pixels@.len() == n,
                forall|i: int| 0 <= i < n ==> #[trigger] pixels@[i] == fill,
            decreases total - n,
        {
            pixels.push(fill);
            n = n + 1;
        }
        let image = Image { width, height, pixels };
        proof {
            assert forall|r: int, c: int| 0 <= r < height && 0 <= c < width implies #[trigger] image@[r][c]
                == fill by {
                lemma_cell_offset(width as int, height as int, r, c);
            }
        }
        image
    }

    /// Returns the width of the image.
    pub fn width(&self) -> (w: usize)
        ensures
            w == self.spec_width(),
            w > 0,
    {
        proof {
            use_type_invariant(self);
        }
        self.width
    }

    /// Returns the height of the image.
    pub fn height(&self) -> (h: usize)
        ensures
            h == self.spec_height(),
            h > 0,
    {
        proof {
            use_type_invariant(self);
        }
        self.height
    }

    /// Returns row `row` of the image, counted from the top.
    pub fn index(&self, row: usize) -> (pixels: &[P])
        requires
            row < self.spec_height(),
        ensures
            pixels@ == self@[row as int],
    {
        proof {
            use_type_invariant(self);
            self.lemma_in_store(row as int, 0);
        }
        let start: usize = row * self.width;
        let pixels = vstd::slice::slice_subrange(self.pixels.as_slice(), start, start + self.width);
        assert(pixels@ =~= self@[row as int]);
        pixels
    }

    /// Returns the pixel in row `row`, column `col`.
    pub fn get(&self, row: usize, col: usize) -> (pixel: P)
        requires
            row < self.spec_height(),
            col < self.spec_width(),
        ensures
            pixel == self@[row as int][col as int],
    {
        proof {
            use_type_invariant(self);
            self.lemma_in_store(row as int, col as int);
        }
        self.pixels[row * self.width + col]
    }

    /// Replaces the pixel in row `row`, column `col`, and no other.
    pub fn set(&mut self, row: usize, col: usize, pixel: P)
        requires
            row < old(self).spec_height(),
            col < old(self).spec_width(),
        ensures
            final(self).spec_width() == old(self).spec_width(),
            final(self).spec_height() == old(self).spec_height(),
            final(self)@ == old(self)@.update(
                row as int,
                old(self)@[row as int].update(col as int, pixel),
            ),
    {
        proof {
            use_type_invariant(&*self);
            self.lemma_in_store(row as int, col as int);
        }
        let offset: usize = row * self.width + col;
        self.pixels[offset] = pixel;
        proof {
            let w = self.width as int;
            let after = self@;
            let expected = old(self)@.update(
                row as int,
                old(self)@[row as int].update(col as int, pixel),
            );
            assert(after.len() == expected.len());
            assert forall|r: int| 0 <= r < after.len() implies #[trigger] after[r] =~= expected[r] by {
                assert forall|c: int| 0 <= c < w implies after[r][c] == expected[r][c] by {
                    lemma_cell_offset(w, self.height as int, r, c);
                    if r * w + c == offset {
                        lemma_offset_unique(w, r, c, row as int, col as int);
                    }
                }
            }
            assert(after =~= expected);
        }
    }

    /// Returns the rows of the image from top to bottom.
    pub fn iter(&self) -> (rows: Vec<&[P]>)
        ensures
            rows@.len() == self.spec_height(),
            forall|r: int| 0 <= r < rows@.len() ==> (#[trigger] rows@[r])@ == self@[r],
    {
        let mut rows: Vec<&[P]> = Vec::new();
        let mut r: usize = 0;
        while r < self.height
            invariant
                r <= self.height,
                self.height == self.spec_height(),
                rows@.len() == r,
                forall|i: int| 0 <= i < r ==> (#[trigger] rows@[i])@ == self@[i],
            decreases self.height - r,
        {
            rows.push(self.index(r));
            r = r + 1;
        }
        rows
    }
}

} // verus!
