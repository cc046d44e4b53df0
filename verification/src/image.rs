use vstd::prelude::*;
use crate::rgb::Rgb;
use crate::rgb_bayer::RgbBayer;

verus! {

/// Size of an image and the distance, in pixels, between the starts of two
/// consecutive rows of its pixel buffer.
#[derive(Clone, Copy, Debug, PartialEq, Eq, Structural)]
pub struct ImageDimensions {
    pub width: usize,
    pub height: usize,
    pub pitch: usize,
}

/// An image that owns its pixel buffer.
pub struct OwnedImage<P> {
    pub dimensions: ImageDimensions,
    pub pixels: Vec<P>,
}

/// An image whose pixels are borrowed from a buffer.
pub struct ImageSlice<'a, P> {
    pub dimensions: ImageDimensions,
    pub pixels: &'a [P],
}

/// An image whose pixels are borrowed, mutably, from a buffer.
pub struct ImageSliceMut<'a, P> {
    pub dimensions: ImageDimensions,
    pub pixels: &'a mut [P],
}

/// Position in the pixel buffer of the pixel at column `x`, row `y`.
pub open spec fn pixel_index(d: ImageDimensions, x: int, y: int) -> int {
    x + y * d.pitch
}

/// The pixel at column `x`, row `y` is inside the image and inside a buffer
/// of `len` pixels.
pub open spec fn pixel_in_buffer(d: ImageDimensions, len: int, x: int, y: int) -> bool {
    &&& 0 <= x < d.width
    &&& 0 <= y < d.height
    &&& pixel_index(d, x, y) < len
}

/// Every row of the image lies inside a buffer of `len` pixels.
pub open spec fn rows_in_buffer(d: ImageDimensions, len: int) -> bool {
    d.width == 0 || d.height == 0 || (d.height - 1) * d.pitch + d.width <= len
}

/// The buffer offsets of all row starts fit in a `usize`.
pub open spec fn row_starts_fit(d: ImageDimensions) -> bool {
    d.height == 0 || (d.height - 1) * d.pitch <= usize::MAX
}

/// Dimensions of a tightly packed `width` x `height` image.
pub open spec fn packed(width: int, height: int) -> ImageDimensions {
    ImageDimensions { width: width as usize, height: height as usize, pitch: width as usize }
}

/// The offset of the top-left corner of a centred `width` x `height` crop.
pub open spec fn center_offset(outer: int, inner: int) -> int {
    (outer - inner) / 2
}

proof fn lemma_row_start_bound(d: ImageDimensions, y: int)
    requires
        0 <= y < d.height,
    ensures
        0 <= y * d.pitch <= (d.height - 1) * d.pitch,
{
    assert(0 <= y * d.pitch <= (d.height - 1) * d.pitch) by (nonlinear_arith)
        requires
            0 <= y < d.height,
    ;
}

proof fn lemma_next_row(w: int, y: int)
    ensures
        (y + 1) * w == y * w + w,
{
    assert((y + 1) * w == y * w + w) by (nonlinear_arith);
}

proof fn lemma_packed_index(w: int, h: int, x: int, y: int)
    requires
        0 <= x < w,
        0 <= y < h,
    ensures
        0 <= x + y * w < w * h,
        x + y * w < h * w,
{
    assert(0 <= x + y * w < w * h && x + y * w < h * w) by (nonlinear_arith)
        requires
            0 <= x < w,
            0 <= y < h,
    ;
}

/// A pixel with `p` in all three components.
pub fn grey_rgb<P: Copy>(p: P) -> (o: Rgb<P>)
    ensures
        o == (Rgb { r: p, g: p, b: p }),
{
    Rgb { r: p, g: p, b: p }
}

/// Read access to an image: its dimensions and its pixel buffer, from which
/// the remaining operations are derived.
pub trait Image {
    type Pixel;

    spec fn spec_dimensions(&self) -> ImageDimensions;

    spec fn spec_pixels(&self) -> Seq<Self::Pixel>;

    fn dimensions(&self) -> (d: ImageDimensions)
        ensures
            d == self.spec_dimensions(),
    ;

    fn pixels(&self) -> (p: &[Self::Pixel])
        ensures
            p@ == self.spec_pixels(),
    ;

    /// Size in bytes of one row of the pixel buffer.
    fn pitch_bytes(&self) -> (n: usize)
        requires
            self.spec_dimensions().pitch * vstd::layout::size_of::<Self::Pixel>() <= usize::MAX,
        ensures
            n == self.spec_dimensions().pitch * vstd::layout::size_of::<Self::Pixel>(),
    {
        self.dimensions().pitch * core::mem::size_of::<Self::Pixel>()
    }

    /// A tightly packed copy of the image with `f` applied to every pixel,
    /// row by row.
    fn clone_map<F, R>(&self, f: F) -> (res: OwnedImage<R>) where
        Self::Pixel: Copy,
        F: Fn(Self::Pixel) -> R,

        requires
            rows_in_buffer(self.spec_dimensions(), self.spec_pixels().len() as int),
            row_starts_fit(self.spec_dimensions()),
            self.spec_dimensions().width * self.spec_dimensions().height <= usize::MAX,
            forall|p: Self::Pixel| call_requires(f, (p,)),
        ensures
            res.dimensions == packed(
                self.spec_dimensions().width as int,
                self.spec_dimensions().height as int,
            ),
            res.pixels@.len() == self.spec_dimensions().width * self.spec_dimensions().height,
            forall|x: int, y: int|
                0 <= x < self.spec_dimensions().width && 0 <= y < self.spec_dimensions().height
                    ==> call_ensures(
                    f,
                    (self.spec_pixels()[pixel_index(self.spec_dimensions(), x, y)],),
                    #[trigger] res.pixels@[x + y * self.spec_dimensions().width],
                ),
    {
        let d = self.dimensions();
        let src = self.pixels();
        let src_len = src.len();
        let mut dest: Vec<R> = Vec::with_capacity(d.width * d.height);
        let mut y: usize = 0;
        while y < d.height
            invariant
                d == self.spec_dimensions(),
                src@ == self.spec_pixels(),
                src_len == src@.len(),
                rows_in_buffer(d, src@.len() as int),
                row_starts_fit(d),
                d.width * d.height <= usize::MAX,
                forall|p: Self::Pixel| call_requires(f, (p,)),
                0 <= y <= d.height,
                dest@.len() == y * d.width,
                forall|xx: int, yy: int|
                    0 <= xx < d.width && 0 <= yy < y ==> call_ensures(
                        f,
                        (src@[pixel_index(d, xx, yy)],),
                        #[trigger] dest@[xx + yy * d.width],
                    ),
            decreases d.height - y,
        {
            proof {
                lemma_row_start_bound(d, y as int);
                lemma_next_row(d.width as int, y as int);
                assert((y + 1) * d.width <= d.width * d.height) by (nonlinear_arith)
                    requires
                        y < d.height,
                ;
            }
            let offset = y * d.pitch;
            let mut x: usize = 0;
            while x < d.width
                invariant
                    d == self.spec_dimensions(),
                    src@ == self.spec_pixels(),
                    src_len == src@.len(),
                    rows_in_buffer(d, src@.len() as int),
                    forall|p: Self::Pixel| call_requires(f, (p,)),
                    0 <= y < d.height,
                    offset == y * d.pitch,
                    offset <= (d.height - 1) * d.pitch,
                    0 <= x <= d.width,
                    dest@.len() == y * d.width + x,
                    (y + 1) * d.width <= d.width * d.height,
                    d.width * d.height <= usize::MAX,
                    forall|xx: int, yy: int|
                        0 <= xx < d.width && 0 <= yy < y ==> call_ensures(
                            f,
                            (src@[pixel_index(d, xx, yy)],),
                            #[trigger] dest@[xx + yy * d.width],
                        ),
                    forall|xx: int|
                        0 <= xx < x ==> call_ensures(
                            f,
                            (src@[pixel_index(d, xx, y as int)],),
                            #[trigger] dest@[xx + y * d.width],
                        ),
                decreases d.width - x,
            {
                let p = src[offset + x];
                let v = f(p);
                let ghost old_dest = dest@;
                dest.push(v);
                proof {
                    assert forall|xx: int, yy: int|
                        0 <= xx < d.width && 0 <= yy < y implies call_ensures(
                            f,
                            (src@[pixel_index(d, xx, yy)],),
                            #[trigger] dest@[xx + yy * d.width],
                        ) by {
                        lemma_packed_index(d.width as int, y as int, xx, yy);
                        assert(dest@[xx + yy * d.width] == old_dest[xx + yy * d.width]);
                    }
                    assert forall|xx: int|
                        0 <= xx < x + 1 implies call_ensures(
                            f,
                            (src@[pixel_index(d, xx, y as int)],),
                            #[trigger] dest@[xx + y * d.width],
                        ) by {
                        if xx < x {
                            assert(dest@[xx + y * d.width] == old_dest[xx + y * d.width]);
                        }
                    }
                }
                x = x + 1;
            }
            proof {
                assert forall|xx: int, yy: int|
                    0 <= xx < d.width && 0 <= yy < y + 1 implies call_ensures(
                        f,
                        (src@[pixel_index(d, xx, yy)],),
                        #[trigger] dest@[xx + yy * d.width],
                    ) by {
                    if yy == y {
                    }
                }
            }
            y = y + 1;
        }
        proof {
            assert(d.height * d.width == d.width * d.height) by (nonlinear_arith);
        }
        OwnedImage { dimensions: ImageDimensions { width: d.width, height: d.height, pitch: d.width }, pixels: dest }
    }

    /// The pixel at column `x`, row `y`.
    fn pixel_at(&self, x: usize, y: usize) -> (p: &Self::Pixel)
        requires
            pixel_in_buffer(self.spec_dimensions(), self.spec_pixels().len() as int, x as int, y as int),
        ensures
            *p == self.spec_pixels()[pixel_index(self.spec_dimensions(), x as int, y as int)],
    {
        let d = self.dimensions();
        let p = self.pixels();
        let _len = p.len();
        &p[x + y * d.pitch]
    }

    /// The `width` pixels of row `y`.
    fn row(&self, y: usize) -> (r: &[Self::Pixel])
        requires
            y < self.spec_dimensions().height,
            y * self.spec_dimensions().pitch + self.spec_dimensions().width <= self.spec_pixels().len(),
        ensures
            r@ == self.spec_pixels().subrange(
                y * self.spec_dimensions().pitch,
                y * self.spec_dimensions().pitch + self.spec_dimensions().width,
            ),
    {
        let d = self.dimensions();
        let p = self.pixels();
        let _len = p.len();
        let i = y * d.pitch;
        &p[i..i + d.width]
    }

    /// Row `y` without its first `left` and its last `right` pixels.
    fn row_slice(&self, y: usize, left: usize, right: usize) -> (r: &[Self::Pixel])
        requires
            y < self.spec_dimensions().height,
            left < self.spec_dimensions().width,
            left + right < self.spec_dimensions().width,
            y * self.spec_dimensions().pitch + self.spec_dimensions().width <= self.spec_pixels().len(),
        ensures
            r@ == self.spec_pixels().subrange(
                y * self.spec_dimensions().pitch + left,
                y * self.spec_dimensions().pitch + self.spec_dimensions().width - right,
            ),
    {
        let d = self.dimensions();
        let p = self.pixels();
        let _len = p.len();
        let i = y * d.pitch;
        &p[i + left..i + d.width - right]
    }

    /// The `width` x `height` part of the image whose top-left corner is the
    /// pixel at column `x`, row `y`; it shares the pixel buffer.
    fn crop<'a>(&'a self, x: usize, y: usize, width: usize, height: usize) -> (res: ImageSlice<'a, Self::Pixel>)
        requires
            x + width <= self.spec_dimensions().width,
            y + height <= self.spec_dimensions().height,
            pixel_index(self.spec_dimensions(), x as int, y as int) <= self.spec_pixels().len(),
        ensures
            res.dimensions == (ImageDimensions { width, height, pitch: self.spec_dimensions().pitch }),
            res.pixels@ == self.spec_pixels().subrange(
                pixel_index(self.spec_dimensions(), x as int, y as int),
                self.spec_pixels().len() as int,
            ),
    {
        let d = self.dimensions();
        let p = self.pixels();
        let _len = p.len();
        let start = x + y * d.pitch;
        ImageSlice {
            dimensions: ImageDimensions { width: width, height: height, pitch: d.pitch },
            pixels: &p[start..p.len()],
        }
    }

    /// The `width` x `height` part in the middle of the image.
    fn center_crop<'a>(&'a self, width: usize, height: usize) -> (res: ImageSlice<'a, Self::Pixel>)
        requires
            width <= self.spec_dimensions().width,
            height <= self.spec_dimensions().height,
            pixel_index(
                self.spec_dimensions(),
                center_offset(self.spec_dimensions().width as int, width as int),
                center_offset(self.spec_dimensions().height as int, height as int),
            ) <= self.spec_pixels().len(),
        ensures
            res.dimensions == (ImageDimensions { width, height, pitch: self.spec_dimensions().pitch }),
            res.pixels@ == self.spec_pixels().subrange(
                pixel_index(
                    self.spec_dimensions(),
                    center_offset(self.spec_dimensions().width as int, width as int),
                    center_offset(self.spec_dimensions().height as int, height as int),
                ),
                self.spec_pixels().len() as int,
            ),
    {
        let d = self.dimensions();
        self.crop((d.width - width) / 2, (d.height - height) / 2, width, height)
    }

    /// A grey copy of the image in which every pixel has its value in all
    /// three components.
    fn to_rgb(&self) -> (res: OwnedImage<Rgb<Self::Pixel>>) where Self::Pixel: Copy
        requires
            rows_in_buffer(self.spec_dimensions(), self.spec_pixels().len() as int),
            row_starts_fit(self.spec_dimensions()),
            self.spec_dimensions().width * self.spec_dimensions().height <= usize::MAX,
        ensures
            res.dimensions == packed(
                self.spec_dimensions().width as int,
                self.spec_dimensions().height as int,
            ),
            res.pixels@.len() == self.spec_dimensions().width * self.spec_dimensions().height,
            forall|x: int, y: int|
                0 <= x < self.spec_dimensions().width && 0 <= y < self.spec_dimensions().height
                    ==> {
                    let p = self.spec_pixels()[pixel_index(self.spec_dimensions(), x, y)];
                    #[trigger] res.pixels@[x + y * self.spec_dimensions().width] == Rgb { r: p, g: p, b: p }
                },
    {
        self.clone_map(grey_rgb::<Self::Pixel>)
    }
}

/// Write access to the pixels of an image.
pub trait ImageMut: Image {
    fn pixels_mut(&mut self) -> (res: &mut [Self::Pixel])
        ensures
            res@ == old(self).spec_pixels(),
            final(self).spec_pixels() == final(res)@,
            final(self).spec_dimensions() == old(self).spec_dimensions(),
    ;

    /// The pixel at column `x`, row `y`, for writing.
    fn pixel_at_mut(&mut self, x: usize, y: usize) -> (res: &mut Self::Pixel)
        requires
            pixel_in_buffer(old(self).spec_dimensions(), old(self).spec_pixels().len() as int, x as int, y as int),
        ensures
            *res == old(self).spec_pixels()[pixel_index(old(self).spec_dimensions(), x as int, y as int)],
            final(self).spec_pixels() == old(self).spec_pixels().update(
                pixel_index(old(self).spec_dimensions(), x as int, y as int),
                *final(res),
            ),
            final(self).spec_dimensions() == old(self).spec_dimensions(),
    {
        let pitch = self.dimensions().pitch;
        let p = self.pixels_mut();
        let _len = p.len();
        &mut p[x + y * pitch]
    }
}

impl<P> Image for OwnedImage<P> {
    type Pixel = P;

    open spec fn spec_dimensions(&self) -> ImageDimensions {
        self.dimensions
    }

    open spec fn spec_pixels(&self) -> Seq<P> {
        self.pixels@
    }

    fn dimensions(&self) -> (d: ImageDimensions) {
        self.dimensions
    }

    fn pixels(&self) -> (p: &[P]) {
        self.pixels.as_slice()
    }
}

impl<'a, P> Image for ImageSlice<'a, P> {
    type Pixel = P;

    open spec fn spec_dimensions(&self) -> ImageDimensions {
        self.dimensions
    }

    open spec fn spec_pixels(&self) -> Seq<P> {
        self.pixels@
    }

    fn dimensions(&self) -> (d: ImageDimensions) {
        self.dimensions
    }

    fn pixels(&self) -> (p: &[P]) {
        self.pixels
    }
}

impl<'a, P> Image for ImageSliceMut<'a, P> {
    type Pixel = P;

    open spec fn spec_dimensions(&self) -> ImageDimensions {
        self.dimensions
    }

    open spec fn spec_pixels(&self) -> Seq<P> {
        self.pixels@
    }

    fn dimensions(&self) -> (d: ImageDimensions) {
        self.dimensions
    }

    fn pixels(&self) -> (p: &[P]) {
        &*self.pixels
    }
}

impl<'a, P> ImageMut for ImageSliceMut<'a, P> {
    fn pixels_mut(&mut self) -> (res: &mut [P]) {
        self.pixels
    }
}

impl<P> OwnedImage<P> {
    /// A view of the image that borrows its pixels.
    pub fn as_ref<'b>(&'b self) -> (res: ImageSlice<'b, P>)
        ensures
            res.dimensions == self.dimensions,
            res.pixels@ == self.pixels@,
    {
        ImageSlice { dimensions: self.dimensions, pixels: self.pixels.as_slice() }
    }

    /// A view of the image that borrows its pixels mutably.
    pub fn as_mut<'b>(&'b mut self) -> (res: ImageSliceMut<'b, P>)
        ensures
            res.dimensions == old(self).dimensions,
            res.pixels@ == old(self).pixels@,
            final(self).dimensions == old(self).dimensions,
            final(self).pixels@ == final(res.pixels)@,
    {
        let d = self.dimensions;
        ImageSliceMut { dimensions: d, pixels: self.pixels.as_mut_slice() }
    }
}

impl<'a, P> ImageSlice<'a, P> {
    /// The same view again.
    pub fn as_ref(&self) -> (res: ImageSlice<'a, P>)
        ensures
            res.dimensions == self.dimensions,
            res.pixels@ == self.pixels@,
    {
        ImageSlice { dimensions: self.dimensions, pixels: self.pixels }
    }
}

impl<'a, P> ImageSliceMut<'a, P> {
    /// A read-only view of the same pixels.
    pub fn as_ref<'b>(&'b self) -> (res: ImageSlice<'b, P>)
        ensures
            res.dimensions == self.spec_dimensions(),
            res.pixels@ == self.spec_pixels(),
    {
        ImageSlice { dimensions: self.dimensions, pixels: &*self.pixels }
    }

    /// A mutable view of the same pixels.
    pub fn as_mut<'b>(&'b mut self) -> (res: ImageSliceMut<'b, P>)
        ensures
            res.dimensions == old(self).dimensions,
            res.pixels@ == old(self).pixels@,
            final(self).dimensions == old(self).dimensions,
            final(self).pixels@ == final(res.pixels)@,
    {
        let d = self.dimensions;
        ImageSliceMut { dimensions: d, pixels: &mut *self.pixels }
    }
}

impl<P: Copy + Default> OwnedImage<P> {
    /// A tightly packed `width` x `height` image whose pixels all hold the
    /// default value of `P`.
    pub fn zero(width: usize, height: usize) -> (res: Self)
        requires
            width * height <= usize::MAX,
        ensures
            res.dimensions == packed(width as int, height as int),
            res.pixels@.len() == width * height,
            forall|i: int| 0 <= i < res.pixels@.len() ==> call_ensures(P::default, (), #[trigger] res.pixels@[i]),
            forall|i: int, j: int|
                0 <= i < res.pixels@.len() && 0 <= j < res.pixels@.len() ==> #[trigger] res.pixels@[i] == #[trigger] res.pixels@[j],
    {
        let n = width * height;
        let zero: P = P::default();
        let mut pixels: Vec<P> = Vec::with_capacity(n);
        let mut i: usize = 0;
        while i < n
            invariant
                0 <= i <= n,
                pixels@.len() == i,
                call_ensures(P::default, (), zero),
                forall|k: int| 0 <= k < i ==> #[trigger] pixels@[k] == zero,
            decreases n - i,
        {
            pixels.push(zero);
            i = i + 1;
        }
        OwnedImage { dimensions: ImageDimensions { width: width, height: height, pitch: width }, pixels: pixels }
    }
}

/// Which colour the Bayer filter puts over column `x`, row `y`: red at even
/// columns of even rows, blue at odd columns of odd rows, green elsewhere.
pub enum BayerColour {
    Red,
    Green,
    Blue,
}

/// The colour of the Bayer filter over column `x`, row `y`.
pub open spec fn bayer_colour(x: int, y: int) -> BayerColour {
    if x % 2 == 0 && y % 2 == 0 {
        BayerColour::Red
    } else if x % 2 == 1 && y % 2 == 1 {
        BayerColour::Blue
    } else {
        BayerColour::Green
    }
}

/// Whether `p` is the Bayer pixel for a grey value `gray` seen at column
/// `x`, row `y`: the component of the filter's colour holds `gray` and its
/// count holds `one`; the other components and counts hold the default
/// value of `P`.
pub open spec fn is_bayer_pixel<P: Default>(p: RgbBayer<P>, gray: P, one: P, x: int, y: int) -> bool {
    match bayer_colour(x, y) {
        BayerColour::Red => p.r == gray && p.rc == one && call_ensures(P::default, (), p.g)
            && call_ensures(P::default, (), p.gc) && call_ensures(P::default, (), p.b) && call_ensures(
            P::default,
            (),
            p.bc,
        ),
        BayerColour::Green => p.g == gray && p.gc == one && call_ensures(P::default, (), p.r)
            && call_ensures(P::default, (), p.rc) && call_ensures(P::default, (), p.b) && call_ensures(
            P::default,
            (),
            p.bc,
        ),
        BayerColour::Blue => p.b == gray && p.bc == one && call_ensures(P::default, (), p.r)
            && call_ensures(P::default, (), p.rc) && call_ensures(P::default, (), p.g) && call_ensures(
            P::default,
            (),
            p.gc,
        ),
    }
}

/// The Bayer pixel for a grey value seen at column `x`, row `y`.
fn bayer_pixel<P: Copy + Default>(gray: P, one: P, x: usize, y: usize) -> (p: RgbBayer<P>)
    ensures
        is_bayer_pixel(p, gray, one, x as int, y as int),
{
    let zero = P::default();
    if x % 2 == 0 && y % 2 == 0 {
        RgbBayer { r: gray, rc: one, g: zero, gc: zero, b: zero, bc: zero }
    } else if x % 2 == 1 && y % 2 == 1 {
        RgbBayer { r: zero, rc: zero, g: zero, gc: zero, b: gray, bc: one }
    } else {
        RgbBayer { r: zero, rc: zero, g: gray, gc: one, b: zero, bc: zero }
    }
}

impl<'a, P: Copy + Default> ImageSlice<'a, P> {
    /// A tightly packed image of Bayer pixels that puts each grey pixel
    /// behind the filter colour of its position, with a count of `one` (the
    /// value one of `P`).
    pub fn to_rggb(&self, one: P) -> (res: OwnedImage<RgbBayer<P>>)
        requires
            rows_in_buffer(self.dimensions, self.pixels@.len() as int),
            self.dimensions.width == 0 || row_starts_fit(self.dimensions),
            self.dimensions.width * self.dimensions.height <= usize::MAX,
        ensures
            res.dimensions == packed(self.dimensions.width as int, self.dimensions.height as int),
            res.pixels@.len() == self.dimensions.width * self.dimensions.height,
            forall|x: int, y: int|
                0 <= x < self.dimensions.width && 0 <= y < self.dimensions.height ==> is_bayer_pixel(
                    #[trigger] res.pixels@[x + y * self.dimensions.width],
                    self.pixels@[pixel_index(self.dimensions, x, y)],
                    one,
                    x,
                    y,
                ),
    {
        let d = self.dimensions;
        let src = self.pixels;
        let src_len = src.len();
        let mut pixels: Vec<RgbBayer<P>> = Vec::with_capacity(d.width * d.height);
        let mut y: usize = 0;
        while y < d.height
            invariant
                d == self.dimensions,
                src@ == self.pixels@,
                src_len == src@.len(),
                rows_in_buffer(d, src@.len() as int),
                d.width == 0 || row_starts_fit(d),
                d.width * d.height <= usize::MAX,
                0 <= y <= d.height,
                pixels@.len() == y * d.width,
                forall|xx: int, yy: int|
                    0 <= xx < d.width && 0 <= yy < y ==> is_bayer_pixel(
                        #[trigger] pixels@[xx + yy * d.width],
                        src@[pixel_index(d, xx, yy)],
                        one,
                        xx,
                        yy,
                    ),
            decreases d.height - y,
        {
            proof {
                lemma_row_start_bound(d, y as int);
                lemma_next_row(d.width as int, y as int);
                assert((y + 1) * d.width <= d.width * d.height) by (nonlinear_arith)
                    requires
                        y < d.height,
                ;
            }
            let mut x: usize = 0;
            while x < d.width
                invariant
                    d == self.dimensions,
                    src@ == self.pixels@,
                    src_len == src@.len(),
                    rows_in_buffer(d, src@.len() as int),
                    0 <= y < d.height,
                    y * d.pitch <= (d.height - 1) * d.pitch,
                    0 <= x <= d.width,
                    pixels@.len() == y * d.width + x,
                    (y + 1) * d.width <= d.width * d.height,
                    d.width * d.height <= usize::MAX,
                    forall|xx: int, yy: int|
                        0 <= xx < d.width && 0 <= yy < y ==> is_bayer_pixel(
                            #[trigger] pixels@[xx + yy * d.width],
                            src@[pixel_index(d, xx, yy)],
                            one,
                            xx,
                            yy,
                        ),
                    forall|xx: int|
                        0 <= xx < x ==> is_bayer_pixel(
                            #[trigger] pixels@[xx + y * d.width],
                            src@[pixel_index(d, xx, y as int)],
                            one,
                            xx,
                            y as int,
                        ),
                decreases d.width - x,
            {
                let gray = *self.pixel_at(x, y);
                let p = bayer_pixel(gray, one, x, y);
                let ghost before = pixels@;
                pixels.push(p);
                proof {
                    assert forall|xx: int, yy: int|
                        0 <= xx < d.width && 0 <= yy < y implies is_bayer_pixel(
                            #[trigger] pixels@[xx + yy * d.width],
                            src@[pixel_index(d, xx, yy)],
                            one,
                            xx,
                            yy,
                        ) by {
                        lemma_packed_index(d.width as int, y as int, xx, yy);
                        assert(pixels@[xx + yy * d.width] == before[xx + yy * d.width]);
                    }
                    assert forall|xx: int|
                        0 <= xx < x + 1 implies is_bayer_pixel(
                            #[trigger] pixels@[xx + y * d.width],
                            src@[pixel_index(d, xx, y as int)],
                            one,
                            xx,
                            y as int,
                        ) by {
                        if xx < x {
                            assert(pixels@[xx + y * d.width] == before[xx + y * d.width]);
                        }
                    }
                }
                x = x + 1;
            }
            y = y + 1;
        }
        proof {
            assert(d.height * d.width == d.width * d.height) by (nonlinear_arith);
        }
        OwnedImage { dimensions: ImageDimensions { width: d.width, height: d.height, pitch: d.width }, pixels: pixels }
    }
}

/// The pixel at column `x`, row `y` of the `width` x `height` crop whose
/// top-left corner is at column `x0`, row `y0` is the pixel at column
/// `x0 + x`, row `y0 + y` of the image it was cut from.
pub proof fn lemma_crop_pixel<P>(
    d: ImageDimensions,
    pixels: Seq<P>,
    x0: int,
    y0: int,
    width: usize,
    height: usize,
    x: int,
    y: int,
)
    requires
        0 <= x0,
        0 <= y0,
        x0 + width <= d.width,
        y0 + height <= d.height,
        pixel_index(d, x0, y0) <= pixels.len(),
        pixel_in_buffer(
            ImageDimensions { width, height, pitch: d.pitch },
            pixels.len() - pixel_index(d, x0, y0),
            x,
            y,
        ),
    ensures
        pixel_in_buffer(d, pixels.len() as int, x0 + x, y0 + y),
        pixels.subrange(pixel_index(d, x0, y0), pixels.len() as int)[pixel_index(
            ImageDimensions { width, height, pitch: d.pitch },
            x,
            y,
        )] == pixels[pixel_index(d, x0 + x, y0 + y)],
{
    assert((x0 + x) + (y0 + y) * d.pitch == (x0 + y0 * d.pitch) + (x + y * d.pitch)) by (nonlinear_arith);
}

/// A centred crop leaves margins on its two sides that differ by at most
/// one pixel, the extra pixel on the far side: the offset of an `inner`-wide
/// crop of an `outer`-wide image is the margin before it, and the margin
/// after it is that or one more.
pub proof fn lemma_center_offset_margins(outer: int, inner: int)
    requires
        0 <= inner <= outer,
    ensures
        0 <= center_offset(outer, inner),
        center_offset(outer, inner) + inner <= outer,
        outer - inner - center_offset(outer, inner) == center_offset(outer, inner) || outer - inner
            - center_offset(outer, inner) == center_offset(outer, inner) + 1,
{
}

/// The filter colour depends only on whether the column and the row are even
/// or odd: red at even columns of even rows, blue at odd columns of odd rows,
/// green at the rest.
pub proof fn lemma_bayer_colour_parity(x: int, y: int)
    requires
        0 <= x,
        0 <= y,
    ensures
        bayer_colour(x, y) == bayer_colour(x % 2, y % 2),
        bayer_colour(0, 0) == BayerColour::Red,
        bayer_colour(1, 0) == BayerColour::Green,
        bayer_colour(0, 1) == BayerColour::Green,
        bayer_colour(1, 1) == BayerColour::Blue,
        x % 2 == 0 && y % 2 == 0 ==> bayer_colour(x, y) == BayerColour::Red,
        x % 2 == 1 && y % 2 == 1 ==> bayer_colour(x, y) == BayerColour::Blue,
        x % 2 != y % 2 ==> bayer_colour(x, y) == BayerColour::Green,
{
}

} // verus!
