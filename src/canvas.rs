//! A rectangular grid of pixels, stored row by row.
use vstd::prelude::*;

verus! {

/// A `width` by `height` grid of pixels of type `P`.
#[derive(Debug)]
pub struct Canvas<P: Copy> {
    width: usize,
    height: usize,
    pixels: Vec<P>,
}

proof fn lemma_index_in_bounds(x: int, y: int, width: int, height: int)
    requires
        0 <= x < width,
        0 <= y < height,
    ensures
        0 <= y * width + x < width * height,
{
    assert(0 <= y * width) by (nonlinear_arith)
        requires
            0 <= y,
            0 <= width,
    ;
    assert(y * width + x < width * height) by (nonlinear_arith)
        requires
            0 <= x < width,
            0 <= y < height,
    ;
}

proof fn lemma_index_distinct(x: int, y: int, i: int, j: int, width: int)
    requires
        0 <= x < width,
        0 <= i < width,
        0 <= y,
        0 <= j,
        x != i || y != j,
    ensures
        y * width + x != j * width + i,
{
    if y == j {
    } else if y < j {
        assert(y * width + width <= j * width) by (nonlinear_arith)
            requires
                y < j,
                0 <= width,
        ;
    } else {
        assert(j * width + width <= y * width) by (nonlinear_arith)
            requires
                j < y,
                0 <= width,
        ;
    }
}

impl<P: Copy> Canvas<P> {
    #[verifier::type_invariant]
    spec fn well_formed(self) -> bool {
        &&& self.width * self.height <= usize::MAX
        &&& self.pixels@.len() == self.width * self.height
    }

    pub closed spec fn spec_width(&self) -> nat {
        self.width as nat
    }

    pub closed spec fn spec_height(&self) -> nat {
        self.height as nat
    }

    /// The pixel in column `x` of row `y`.
    pub closed spec fn pixel(&self, x: int, y: int) -> P {
        self.pixels@[y * self.width + x]
    }

    /// A canvas of the given size with every pixel set to `fill`.
    pub fn new(width: usize, height: usize, fill: P) -> (r: Canvas<P>)
        requires
            width * height <= usize::MAX,
        ensures
            r.spec_width() == width,
            r.spec_height() == height,
            forall|x: int, y: int|
                0 <= x < width && 0 <= y < height ==> #[trigger] r.pixel(x, y) == fill,
    {
        let n = width * height;
        let mut pixels: Vec<P> = Vec::new();
        let mut i: usize = 0;
        while i < n
            invariant
                i <= n,
                pixels@.len() == i,
                forall|k: int| 0 <= k < i ==> pixels@[k] == fill,
            decreases n - i,
        {
            pixels.push(fill);
            i = i + 1;
        }
        let r = Canvas { width, height, pixels };
        assert forall|x: int, y: int| 0 <= x < width && 0 <= y < height implies #[trigger] r.pixel(
            x,
            y,
        ) == fill by {
            lemma_index_in_bounds(x, y, width as int, height as int);
        }
        r
    }

    /// The number of columns.
    pub fn width(&self) -> (r: usize)
        ensures
            r == self.spec_width(),
    {
        self.width
    }

    /// The number of rows.
    pub fn height(&self) -> (r: usize)
        ensures
            r == self.spec_height(),
    {
        self.height
    }

    /// The pixel in column `x` of row `y`.
    pub fn pixel_at(&self, x: usize, y: usize) -> (r: P)
        requires
            x < self.spec_width(),
            y < self.spec_height(),
        ensures
            r == self.pixel(x as int, y as int),
    {
        proof {
            use_type_invariant(self);
            lemma_index_in_bounds(x as int, y as int, self.width as int, self.height as int);
        }
        self.pixels[y * self.width + x]
    }

    /// Sets the pixel in column `x` of row `y` to `color`; every other pixel
    /// stays as it was.
    pub fn write_pixel(&mut self, x: usize, y: usize, color: P)
        requires
            x < old(self).spec_width(),
            y < old(self).spec_height(),
        ensures
            final(self).spec_width() == old(self).spec_width(),
            final(self).spec_height() == old(self).spec_height(),
            final(self).pixel(x as int, y as int) == color,
            forall|i: int, j: int|
                0 <= i < old(self).spec_width() && 0 <= j < old(self).spec_height() && (i != x
                    || j != y) ==> #[trigger] final(self).pixel(i, j) == old(self).pixel(i, j),
    {
        proof {
            use_type_invariant(&*self);
            lemma_index_in_bounds(x as int, y as int, self.width as int, self.height as int);
        }
        let k = y * self.width + x;
        let mut taken = Canvas { width: 0, height: 0, pixels: Vec::new() };
        std::mem::swap(&mut taken, self);
        let Canvas { width, height, mut pixels } = taken;
        pixels.set(k, color);
        *self = Canvas { width, height, pixels };
        proof {
            assert forall|i: int, j: int|
                0 <= i < old(self).spec_width() && 0 <= j < old(self).spec_height() && (i != x
                    || j != y) implies #[trigger] self.pixel(i, j) == old(self).pixel(i, j) by {
                lemma_index_distinct(x as int, y as int, i, j, self.width as int);
                lemma_index_in_bounds(i, j, self.width as int, self.height as int);
            }
        }
    }
}

} // verus!
