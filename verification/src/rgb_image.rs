//! Colour images held as three channels.
use vstd::prelude::*;
use crate::channel::Channel;

verus! {

/// A colour image: a red, a green and a blue channel.
pub struct RgbImage<P> {
    pub r: Channel<P>,
    pub g: Channel<P>,
    pub b: Channel<P>,
}

/// The first sample of each of the first `n` groups of three in `samples`.
pub open spec fn first_of_triples<P>(samples: Seq<P>, n: nat) -> Seq<P> {
    Seq::new(n, |i: int| samples[3 * i])
}

/// The samples of three channels interleaved: red, green and blue of the
/// first pixel, then of the second, and so on for `n` pixels.
pub open spec fn interleave<P>(r: Seq<P>, g: Seq<P>, b: Seq<P>, n: nat) -> Seq<P> {
    Seq::new(
        3 * n,
        |k: int|
            if k % 3 == 0 {
                r[k / 3]
            } else if k % 3 == 1 {
                g[k / 3]
            } else {
                b[k / 3]
            },
    )
}

impl<P: Copy + Default> RgbImage<P> {
    /// The image that ImageMagick streams as `rgb`: `width` x `height` pixels
    /// of three interleaved samples each. Each of the three channels is made
    /// of the first sample of every pixel.
    pub fn open(width: usize, height: usize, samples: &[P]) -> (res: Self)
        requires
            samples@.len() / 3 == width * height,
        ensures
            res.r.spec_width() == width && res.r.spec_height() == height,
            res.g.spec_width() == width && res.g.spec_height() == height,
            res.b.spec_width() == width && res.b.spec_height() == height,
            res.r.spec_data() == first_of_triples(samples@, (width * height) as nat),
            res.g.spec_data() == first_of_triples(samples@, (width * height) as nat),
            res.b.spec_data() == first_of_triples(samples@, (width * height) as nat),
            res.r.spec_data().len() == width * height,
            forall|i: int| 0 <= i < width * height ==> #[trigger] res.r.spec_data()[i] == samples@[3 * i],
            forall|i: int| 0 <= i < width * height ==> #[trigger] res.g.spec_data()[i] == samples@[3 * i],
            forall|i: int| 0 <= i < width * height ==> #[trigger] res.b.spec_data()[i] == samples@[3 * i],
    {
        let len = samples.len();
        let n = len / 3;
        let mut r: Vec<P> = Vec::with_capacity(n);
        let mut g: Vec<P> = Vec::with_capacity(n);
        let mut b: Vec<P> = Vec::with_capacity(n);
        let mut i: usize = 0;
        while i < n
            invariant
                len == samples@.len(),
                n == len / 3,
                0 <= i <= n,
                r@ == first_of_triples(samples@, i as nat),
                g@ == first_of_triples(samples@, i as nat),
                b@ == first_of_triples(samples@, i as nat),
            decreases n - i,
        {
            let p = samples[3 * i];
            r.push(p);
            g.push(p);
            b.push(p);
            assert(r@ =~= first_of_triples(samples@, (i + 1) as nat));
            assert(g@ =~= first_of_triples(samples@, (i + 1) as nat));
            assert(b@ =~= first_of_triples(samples@, (i + 1) as nat));
            i = i + 1;
        }
        RgbImage {
            r: Channel::from_data(width, height, r),
            g: Channel::from_data(width, height, g),
            b: Channel::from_data(width, height, b),
        }
    }

    /// A `width` x `height` image whose samples all hold the default value of
    /// `P`.
    pub fn new(width: usize, height: usize) -> (res: Self)
        requires
            width * height <= usize::MAX,
        ensures
            res.r.spec_width() == width && res.r.spec_height() == height,
            res.g.spec_width() == width && res.g.spec_height() == height,
            res.b.spec_width() == width && res.b.spec_height() == height,
            res.r.spec_data().len() == width * height,
            res.g.spec_data().len() == width * height,
            res.b.spec_data().len() == width * height,
            forall|i: int| 0 <= i < width * height ==> call_ensures(P::default, (), #[trigger] res.r.spec_data()[i]),
            forall|i: int| 0 <= i < width * height ==> call_ensures(P::default, (), #[trigger] res.g.spec_data()[i]),
            forall|i: int| 0 <= i < width * height ==> call_ensures(P::default, (), #[trigger] res.b.spec_data()[i]),
    {
        RgbImage { r: Channel::new(width, height), g: Channel::new(width, height), b: Channel::new(width, height) }
    }

    /// The width, that of the red channel.
    pub fn width(&self) -> (w: usize)
        ensures
            w == self.r.spec_width(),
    {
        self.r.width()
    }

    /// The height, that of the red channel.
    pub fn height(&self) -> (h: usize)
        ensures
            h == self.r.spec_height(),
    {
        self.r.height()
    }

    /// The samples that saving hands over: red, green and blue of each of
    /// the width times height pixels in turn.
    pub fn interleaved(&self) -> (res: Vec<P>)
        requires
            self.r.spec_width() * self.r.spec_height() <= self.r.spec_data().len(),
            self.r.spec_width() * self.r.spec_height() <= self.g.spec_data().len(),
            self.r.spec_width() * self.r.spec_height() <= self.b.spec_data().len(),
            self.r.spec_width() * self.r.spec_height() <= usize::MAX / 3,
        ensures
            res@ == interleave(
                self.r.spec_data(),
                self.g.spec_data(),
                self.b.spec_data(),
                (self.r.spec_width() * self.r.spec_height()) as nat,
            ),
    {
        let n = self.width() * self.height();
        let r = self.r.pixels();
        let g = self.g.pixels();
        let b = self.b.pixels();
        let mut out: Vec<P> = Vec::with_capacity(3 * n);
        let mut i: usize = 0;
        while i < n
            invariant
                n == self.r.spec_width() * self.r.spec_height(),
                n <= r@.len() && n <= g@.len() && n <= b@.len(),
                r@ == self.r.spec_data(),
                g@ == self.g.spec_data(),
                b@ == self.b.spec_data(),
                0 <= i <= n,
                out@ == interleave(r@, g@, b@, i as nat),
            decreases n - i,
        {
            out.push(r[i]);
            out.push(g[i]);
            out.push(b[i]);
            assert(out@ =~= interleave(r@, g@, b@, (i + 1) as nat));
            i = i + 1;
        }
        out
    }
}

/// Sample `i` of each channel of an opened image is the first of the three
/// samples of pixel `i`: the one at position `3 * i`.
pub proof fn lemma_first_of_triples<P>(samples: Seq<P>, n: nat)
    requires
        3 * n <= samples.len(),
    ensures
        first_of_triples(samples, n).len() == n,
        forall|i: int| 0 <= i < n ==> #[trigger] first_of_triples(samples, n)[i] == samples[3 * i],
{
}

} // verus!
