//! Single-channel images that own their pixels.
use vstd::prelude::*;
use crate::pgm::{read, read_spec, PgmError};

verus! {

/// A `width` x `height` single-channel image, stored row by row.
pub struct GrayImage<P> {
    pub width: usize,
    pub height: usize,
    pub pixels: Vec<P>,
}

/// Position of the pixel at column `x`, row `y` in an image `width` pixels
/// wide.
pub open spec fn gray_index(width: usize, x: int, y: int) -> int {
    x + y * width
}

impl<P> GrayImage<P> {
    /// The pixel at column `x`, row `y`.
    pub fn pixel_at(&self, x: usize, y: usize) -> (p: &P)
        requires
            gray_index(self.width, x as int, y as int) < self.pixels@.len(),
        ensures
            *p == self.pixels@[gray_index(self.width, x as int, y as int)],
    {
        let _len = self.pixels.len();
        &self.pixels[x + y * self.width]
    }

    /// The pixel at column `x`, row `y`, for writing.
    pub fn pixel_at_mut(&mut self, x: usize, y: usize) -> (res: &mut P)
        requires
            gray_index(old(self).width, x as int, y as int) < old(self).pixels@.len(),
        ensures
            *res == old(self).pixels@[gray_index(old(self).width, x as int, y as int)],
            final(self).pixels@ == old(self).pixels@.update(
                gray_index(old(self).width, x as int, y as int),
                *final(res),
            ),
            final(self).width == old(self).width,
            final(self).height == old(self).height,
    {
        let _len = self.pixels.len();
        let i = x + y * self.width;
        let s = self.pixels.as_mut_slice();
        &mut s[i]
    }
}

impl<P: Copy + Default> GrayImage<P> {
    /// A `width` x `height` image whose pixels all hold the default value of
    /// `P`.
    fn new(width: usize, height: usize) -> (res: Self)
        requires
            width * height <= usize::MAX,
        ensures
            res.width == width,
            res.height == height,
            res.pixels@.len() == width * height,
            forall|i: int| 0 <= i < res.pixels@.len() ==> call_ensures(P::default, (), #[trigger] res.pixels@[i]),
    {
        let n = width * height;
        let zero: P = P::default();
        let mut pixels: Vec<P> = Vec::with_capacity(n);
        let mut i: usize = 0;
        while i < n
            invariant
                0 <= i <= n,
                pixels@.len() == i,
                call_ensures(P::default, (), zero),
                forall|k: int| 0 <= k < i ==> #[trigger] pixels@[k] == zero,
            decreases n - i,
        {
            pixels.push(zero);
            i = i + 1;
        }
        GrayImage { width: width, height: height, pixels: pixels }
    }
}

impl GrayImage<u16> {
    /// The image that `dcraw -c -4 -d` writes to its standard output, a
    /// 16-bit binary PGM image.
    pub fn open_raw(dcraw_output: &[u8]) -> (res: Result<GrayImage<u16>, PgmError>)
        ensures
            match res {
                Ok(img) => read_spec(dcraw_output@) == Ok::<(usize, usize, Seq<u16>), PgmError>(
                    (img.width, img.height, img.pixels@),
                ),
                Err(e) => read_spec(dcraw_output@) == Err::<(usize, usize, Seq<u16>), PgmError>(e),
            },
    {
        match read(dcraw_output) {
            Ok((width, height, pixels)) => Ok(GrayImage { width: width, height: height, pixels: pixels }),
            Err(e) => Err(e),
        }
    }
}

/// Writing the pixel at column `x`, row `y` and then reading it gives back
/// what was written, and every other pixel of the image reads as before.
pub proof fn lemma_write_then_read<P>(
    pixels: Seq<P>,
    width: usize,
    x: usize,
    y: usize,
    v: P,
    x2: usize,
    y2: usize,
)
    requires
        x < width,
        x2 < width,
        gray_index(width, x as int, y as int) < pixels.len(),
        gray_index(width, x2 as int, y2 as int) < pixels.len(),
    ensures
        pixels.update(gray_index(width, x as int, y as int), v)[gray_index(width, x as int, y as int)] == v,
        (x2 != x || y2 != y) ==> pixels.update(gray_index(width, x as int, y as int), v)[gray_index(
            width,
            x2 as int,
            y2 as int,
        )] == pixels[gray_index(width, x2 as int, y2 as int)],
{
    if x2 != x || y2 != y {
        assert(x + y * width != x2 + y2 * width) by (nonlinear_arith)
            requires
                x < width,
                x2 < width,
                x2 != x || y2 != y,
        {
            if y < y2 {
                assert(y * width + width <= y2 * width);
            } else if y2 < y {
                assert(y2 * width + width <= y * width);
            }
        }
    }
}

} // verus!
