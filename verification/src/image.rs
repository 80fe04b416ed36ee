use vstd::prelude::*;

verus! {

/// One pixel: three independent 8-bit channels, red, green and blue.
#[derive(Clone, Copy, PartialEq, Eq, Structural, Debug)]
pub struct Color {
    pub r: u8,
    pub g: u8,
    pub b: u8,
}

impl Color {
    /// Builds a color from its three channels.
    pub fn new(r: u8, g: u8, b: u8) -> (c: Color)
        ensures
            c == (Color { r, g, b }),
    {
        Color { r, g, b }
    }

    /// Pure white: every channel at full intensity.
    pub fn white() -> (c: Color)
        ensures
            c == (Color { r: 255u8, g: 255u8, b: 255u8 }),
    {
        Color { r: 255, g: 255, b: 255 }
    }
}

/// A rectangular pixel grid with fixed dimensions, stored in row-major
/// order: the pixel at column `x` of row `y` sits at index `y * width + x`.
#[derive(Debug)]
pub struct Pimage {
    width: usize,
    height: usize,
    pixels: Vec<Color>,
}

impl View for Pimage {
    type V = Seq<Color>;

    /// The pixels in row-major order.
    closed spec fn view(&self) -> Seq<Color> {
        self.pixels@
    }
}

impl Pimage {
    /// The grid's width in pixels.
    pub closed spec fn spec_width(&self) -> usize {
        self.width
    }

    /// The grid's height in pixels.
    pub closed spec fn spec_height(&self) -> usize {
        self.height
    }

    /// The storage invariant: the grid holds exactly `width * height` pixels.
    pub open spec fn wf(&self) -> bool {
        self@.len() == (self.spec_width() as int) * (self.spec_height() as int)
    }

    /// The row-major storage index of the pixel at column `x` of row `y`.
    pub open spec fn spec_index_of(&self, x: int, y: int) -> int {
        y * (self.spec_width() as int) + x
    }

    /// Allocates a `width` by `height` grid with every pixel set to `fill`.
    pub fn new(width: usize, height: usize, fill: Color) -> (img: Pimage)
        requires
            (width as int) * (height as int) <= usize::MAX,
        ensures
            img.wf(),
            img.spec_width() == width,
            img.spec_height() == height,
            img@ == Seq::new((width as int * height as int) as nat, |i: int| fill),
    {
        let n = width * height;
        let pixels = vec![fill; n];
        let img = Pimage { width, height, pixels };
        proof {
            assert(img@ =~= Seq::new((width as int * height as int) as nat, |i: int| fill));
        }
        img
    }

    /// Builds a grid directly from a row-major pixel vector.
    pub fn from_pixels(width: usize, height: usize, pixels: Vec<Color>) -> (img: Pimage)
        requires
            pixels@.len() == (width as int) * (height as int),
        ensures
            img.wf(),
            img.spec_width() == width,
            img.spec_height() == height,
            img@ == pixels@,
    {
        Pimage { width, height, pixels }
    }

    /// The grid's width in pixels.
    pub fn width(&self) -> (w: usize)
        ensures
            w == self.spec_width(),
    {
        self.width
    }

    /// The grid's height in pixels.
    pub fn height(&self) -> (h: usize)
        ensures
            h == self.spec_height(),
    {
        self.height
    }

    /// Overwrites the pixel at column `x` of row `y`; bounds are checked
    /// statically by the precondition, so no run-time check can fail.
    pub fn set(&mut self, x: usize, y: usize, color: Color)
        requires
            old(self).wf(),
            x < old(self).spec_width(),
            y < old(self).spec_height(),
        ensures
            final(self).wf(),
            final(self).spec_width() == old(self).spec_width(),
            final(self).spec_height() == old(self).spec_height(),
            final(self)@ == old(self)@.update(old(self).spec_index_of(x as int, y as int), color),
    {
        proof {
            lemma_row_major_in_bounds(
                x as int,
                y as int,
                old(self).spec_width() as int,
                old(self).spec_height() as int,
            );
            vstd::std_specs::vec::axiom_spec_len(&self.pixels);
        }
        let i = y * self.width + x;
        self.pixels[i] = color;
    }

    /// Reads the pixel at column `x` of row `y`.
    pub fn pixel(&self, x: usize, y: usize) -> (c: Color)
        requires
            self.wf(),
            x < self.spec_width(),
            y < self.spec_height(),
        ensures
            c == self@[self.spec_index_of(x as int, y as int)],
    {
        proof {
            lemma_row_major_in_bounds(
                x as int,
                y as int,
                self.spec_width() as int,
                self.spec_height() as int,
            );
            vstd::std_specs::vec::axiom_spec_len(&self.pixels);
        }
        let i = y * self.width + x;
        self.pixels[i]
    }

    /// All pixels in row-major order.
    pub fn pixels(&self) -> (p: &Vec<Color>)
        ensures
            p@ == self@,
    {
        &self.pixels
    }
}

/// A row-major index is always inside the storage: for `x < w` and `y < h`,
/// `y * w + x` lies below `w * h`.
pub proof fn lemma_row_major_in_bounds(x: int, y: int, w: int, h: int)
    requires
        0 <= x < w,
        0 <= y < h,
    ensures
        0 <= y * w + x < w * h,
{
    assert(y * w + x < w * h) by (nonlinear_arith)
        requires
            0 <= x < w,
            0 <= y < h,
    ;
    assert(0 <= y * w + x) by (nonlinear_arith)
        requires
            0 <= x,
            0 <= y,
            0 < w,
    ;
}

impl PartialEq for Pimage {
    /// Two grids are equal when their dimensions and every pixel agree.
    fn eq(&self, other: &Pimage) -> (r: bool)
        ensures
            r == (self.spec_width() == other.spec_width()
                && self.spec_height() == other.spec_height() && self@ == other@),
    {
        if self.width != other.width || self.height != other.height {
            return false;
        }
        if self.pixels.len() != other.pixels.len() {
            return false;
        }
        let n = self.pixels.len();
        let mut i: usize = 0;
        while i < n
            invariant
                n == self@.len(),
                n == other@.len(),
                i <= n,
                forall|j: int| 0 <= j < i ==> self@[j] == other@[j],
            decreases n - i,
        {
            if self.pixels[i] != other.pixels[i] {
                return false;
            }
            i = i + 1;
        }
        proof {
            assert(self@ =~= other@);
        }
        true
    }
}

impl vstd::std_specs::cmp::PartialEqSpecImpl for Pimage {
    open spec fn obeys_eq_spec() -> bool {
        true
    }

    open spec fn eq_spec(&self, other: &Pimage) -> bool {
        self.spec_width() == other.spec_width() && self.spec_height() == other.spec_height()
            && self@ == other@
    }
}

} // verus!
