//! One channel of a colour image: a tightly packed grid of samples.
use vstd::prelude::*;

verus! {

/// A `width` x `height` grid of samples, stored row by row. Its size is
/// read with `width` and `height`, and its samples with `pixels`.
pub struct Channel<P> {
    width: usize,
    height: usize,
    data: Vec<P>,
}

impl<P> Channel<P> {
    /// The samples, row by row.
    pub closed spec fn spec_data(&self) -> Seq<P> {
        self.data@
    }

    /// The number of columns.
    pub closed spec fn spec_width(&self) -> usize {
        self.width
    }

    /// The number of rows.
    pub closed spec fn spec_height(&self) -> usize {
        self.height
    }

    /// Position of the sample at column `x`, row `y`.
    pub open spec fn index_of(&self, x: int, y: int) -> int {
        x + y * self.spec_width()
    }

    /// The number of columns.
    pub fn width(&self) -> (w: usize)
        ensures
            w == self.spec_width(),
    {
        self.width
    }

    /// The number of rows.
    pub fn height(&self) -> (h: usize)
        ensures
            h == self.spec_height(),
    {
        self.height
    }
}

impl<P: Copy + Default> Channel<P> {
    /// A channel over the given samples, taken as they are.
    pub fn from_data(width: usize, height: usize, data: Vec<P>) -> (res: Self)
        ensures
            res.spec_width() == width,
            res.spec_height() == height,
            res.spec_data() == data@,
    {
        Channel { width: width, height: height, data: data }
    }

    /// A `width` x `height` channel whose samples all hold the default value
    /// of `P`.
    pub fn new(width: usize, height: usize) -> (res: Self)
        requires
            width * height <= usize::MAX,
        ensures
            res.spec_width() == width,
            res.spec_height() == height,
            res.spec_data().len() == width * height,
            forall|i: int| 0 <= i < res.spec_data().len() ==> call_ensures(P::default, (), #[trigger] res.spec_data()[i]),
            forall|i: int, j: int|
                0 <= i < res.spec_data().len() && 0 <= j < res.spec_data().len() ==> #[trigger] res.spec_data()[i]
                    == #[trigger] res.spec_data()[j],
    {
        let n = width * height;
        let zero: P = P::default();
        let mut data: Vec<P> = Vec::with_capacity(n);
        let mut i: usize = 0;
        while i < n
            invariant
                0 <= i <= n,
                data@.len() == i,
                call_ensures(P::default, (), zero),
                forall|k: int| 0 <= k < i ==> #[trigger] data@[k] == zero,
            decreases n - i,
        {
            data.push(zero);
            i = i + 1;
        }
        Self::from_data(width, height, data)
    }

    /// The sample at column `x`, row `y`.
    pub fn at(&self, x: usize, y: usize) -> (p: P)
        requires
            self.index_of(x as int, y as int) < self.spec_data().len(),
        ensures
            p == self.spec_data()[self.index_of(x as int, y as int)],
    {
        let _len = self.data.len();
        self.data[x + y * self.width]
    }

    /// The sample at column `x`, row `y`, for writing.
    pub fn at_mut(&mut self, x: usize, y: usize) -> (res: &mut P)
        requires
            old(self).index_of(x as int, y as int) < old(self).spec_data().len(),
        ensures
            *res == old(self).spec_data()[old(self).index_of(x as int, y as int)],
            final(self).spec_data() == old(self).spec_data().update(
                old(self).index_of(x as int, y as int),
                *final(res),
            ),
            final(self).spec_width() == old(self).spec_width(),
            final(self).spec_height() == old(self).spec_height(),
    {
        let _len = self.data.len();
        let i = x + y * self.width;
        let s = self.data.as_mut_slice();
        let _len = s.len();
        &mut s[i]
    }

    /// The samples, row by row.
    pub fn pixels(&self) -> (res: &Vec<P>)
        ensures
            res@ == self.spec_data(),
    {
        &self.data
    }

    /// The samples, row by row, for writing.
    pub fn pixels_mut(&mut self) -> (res: &mut Vec<P>)
        ensures
            res@ == old(self).spec_data(),
            final(self).spec_data() == final(res)@,
            final(self).spec_width() == old(self).spec_width(),
            final(self).spec_height() == old(self).spec_height(),
    {
        &mut self.data
    }
}

} // verus!
