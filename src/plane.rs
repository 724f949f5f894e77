use vstd::prelude::*;

use crate::color::RGBA;

verus! {

/// A decoded image: `width` by `height` pixels, stored row by row.
pub struct ImagePlane {
    pub width: u32,
    pub height: u32,
    pub pixels: Vec<RGBA>,
}

proof fn lemma_area_fits(width: u32, height: u32)
    ensures
        0 <= width as int * height as int <= 0xffff_ffff * 0xffff_ffff,
{
    let (w, h) = (width as int, height as int);
    assert(0 <= w * h <= 0xffff_ffff * 0xffff_ffff) by (nonlinear_arith)
        requires
            0 <= w <= 0xffff_ffff,
            0 <= h <= 0xffff_ffff,
    ;
}

impl ImagePlane {
    /// Both dimensions are positive and there is exactly one pixel per
    /// position.
    pub open spec fn wf(&self) -> bool {
        &&& self.width > 0
        &&& self.height > 0
        &&& self.pixels@.len() == self.width as int * self.height as int
    }

    /// The pixel at column `x` and row `y`.
    pub open spec fn pixel(&self, x: int, y: int) -> RGBA {
        self.pixels@[y * self.width as int + x]
    }

    /// A plane over `pixels`, given row by row; `None` unless both
    /// dimensions are positive and `pixels` holds exactly `width * height`
    /// entries.
    pub fn new(width: u32, height: u32, pixels: Vec<RGBA>) -> (r: Option<ImagePlane>)
        ensures
            r is Some <==> (width > 0 && height > 0 && pixels@.len() == width as int
                * height as int),
            r matches Some(p) ==> p.wf() && p.width == width && p.height == height && p.pixels@
                == pixels@,
    {
        if width == 0 || height == 0 {
            return None;
        }
        proof {
            lemma_area_fits(width, height);
        }
        let count: u64 = width as u64 * height as u64;
        if pixels.len() as u64 != count {
            return None;
        }
        Some(ImagePlane { width, height, pixels })
    }

    /// A plane over a buffer of 8-bit RGBA samples, four per pixel, row by
    /// row; samples past the first `width * height` pixels are ignored.
    /// `None` unless both dimensions are positive and the buffer holds at
    /// least `4 * width * height` samples.
    pub fn from_rgba_bytes(width: u32, height: u32, raw: &[u8]) -> (r: Option<ImagePlane>)
        ensures
            r is Some <==> (width > 0 && height > 0 && raw@.len() >= 4 * (width as int
                * height as int)),
            r matches Some(p) ==> {
                &&& p.wf()
                &&& p.width == width
                &&& p.height == height
                &&& forall|i: int|
                    0 <= i < p.pixels@.len() ==> #[trigger] p.pixels@[i] == RGBA(
                        raw@[4 * i],
                        raw@[4 * i + 1],
                        raw@[4 * i + 2],
                        raw@[4 * i + 3],
                    )
            },
    {
        if width == 0 || height == 0 {
            return None;
        }
        proof {
            lemma_area_fits(width, height);
        }
        let count: u128 = width as u128 * height as u128;
        if (raw.len() as u128) < 4 * count {
            return None;
        }
        let n: usize = count as usize;
        let mut pixels: Vec<RGBA> = Vec::new();
        let mut i: usize = 0;
        while i < n
            invariant
                n == width as int * height as int,
                4 * n <= raw@.len(),
                0 <= i <= n,
                pixels@.len() == i,
                forall|j: int|
                    0 <= j < i ==> #[trigger] pixels@[j] == RGBA(
                        raw@[4 * j],
                        raw@[4 * j + 1],
                        raw@[4 * j + 2],
                        raw@[4 * j + 3],
                    ),
            decreases n - i,
        {
            assert(4 * i + 3 < raw@.len());
            let len = raw.len();
            let k: usize = 4 * i;
            pixels.push(RGBA(raw[k], raw[k + 1], raw[k + 2], raw[k + 3]));
            i = i + 1;
        }
        Some(ImagePlane { width, height, pixels })
    }

    pub fn width(&self) -> (r: u32)
        ensures
            r == self.width,
    {
        self.width
    }

    pub fn height(&self) -> (r: u32)
        ensures
            r == self.height,
    {
        self.height
    }

    /// The pixel at column `x` and row `y`.
    pub fn pixel_at(&self, x: u32, y: u32) -> (r: RGBA)
        requires
            self.wf(),
            x < self.width,
            y < self.height,
        ensures
            r == self.pixel(x as int, y as int),
    {
        let w = self.width as usize;
        let len = self.pixels.len();
        proof {
            let (xi, yi, wi, hi) = (x as int, y as int, self.width as int, self.height as int);
            assert(yi * wi + xi < wi * hi) by (nonlinear_arith)
                requires
                    0 <= xi < wi,
                    0 <= yi < hi,
            ;
            assert(0 <= yi * wi <= yi * wi + xi) by (nonlinear_arith)
                requires
                    0 <= xi,
                    0 <= yi,
                    0 <= wi,
            ;
        }
        self.pixels[y as usize * w + x as usize]
    }
}

} // verus!
