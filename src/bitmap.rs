use vstd::prelude::*;

verus! {

/// One RGBA pixel, eight bits per channel.
#[derive(Clone, Copy, PartialEq, Eq, Structural, Debug)]
pub struct Pixel {
    pub r: u8,
    pub g: u8,
    pub b: u8,
    pub a: u8,
}

/// A raster image held row by row: the pixel at column `x`, row `y` is
/// `pixels[y * width + x]`.
#[derive(Clone, Debug)]
pub struct Bitmap {
    pub width: u32,
    pub height: u32,
    pub pixels: Vec<Pixel>,
}

/// A pixel counts as background when its red, green and blue channels are all
/// at least 250; alpha plays no part.
pub open spec fn is_background(p: Pixel) -> bool {
    p.r >= 250 && p.g >= 250 && p.b >= 250
}

pub open spec fn in_grid(x: int, y: int, w: int, h: int) -> bool {
    0 <= x < w && 0 <= y < h
}

impl Bitmap {
    /// The pixel vector holds exactly one entry per grid position.
    pub open spec fn wf(&self) -> bool {
        self.pixels@.len() == self.width as int * self.height as int
    }

    pub open spec fn at(&self, x: int, y: int) -> Pixel {
        self.pixels@[y * self.width as int + x]
    }

    /// Two images with the same dimensions and the same pixel everywhere.
    pub open spec fn same_image(&self, other: &Bitmap) -> bool {
        &&& self.width == other.width
        &&& self.height == other.height
        &&& forall|x: int, y: int|
            in_grid(x, y, self.width as int, self.height as int) ==> #[trigger] self.at(x, y)
                == other.at(x, y)
    }

    /// The position of pixel `(x, y)` in the pixel vector.
    pub fn index_of(&self, x: u32, y: u32) -> (i: usize)
        requires
            self.wf(),
            x < self.width,
            y < self.height,
        ensures
            i as int == y as int * self.width as int + x as int,
            i < self.pixels@.len(),
    {
        let n: usize = self.pixels.len();
        proof {
            lemma_grid_index(x as int, y as int, self.width as int, self.height as int);
            assert(n as int == self.pixels@.len());
        }
        (y as usize) * (self.width as usize) + (x as usize)
    }

    pub fn pixel(&self, x: u32, y: u32) -> (p: Pixel)
        requires
            self.wf(),
            x < self.width,
            y < self.height,
        ensures
            p == self.at(x as int, y as int),
    {
        let i = self.index_of(x, y);
        self.pixels[i]
    }

    pub fn is_background_at(&self, x: u32, y: u32) -> (r: bool)
        requires
            self.wf(),
            x < self.width,
            y < self.height,
        ensures
            r == is_background(self.at(x as int, y as int)),
    {
        let p = self.pixel(x, y);
        p.r >= 250 && p.g >= 250 && p.b >= 250
    }
}

pub proof fn lemma_grid_index(x: int, y: int, w: int, h: int)
    requires
        in_grid(x, y, w, h),
    ensures
        0 <= y * w + x < w * h,
        y * w <= y * w + x,
{
    assert(0 <= y * w) by (nonlinear_arith)
        requires
            0 <= y,
            0 <= w,
    ;
    assert(y * w + x < w * h) by (nonlinear_arith)
        requires
            0 <= x < w,
            0 <= y < h,
    ;
}

} // verus!
