use vstd::prelude::*;

verus! {

/// The `k`-th pair that `cross_range(n)` yields, for `k` in `0..=4 * n`.
///
/// The first component starts at `n` and the second at `-n`; the two take
/// turns moving one step towards the other end, second component first.
pub open spec fn cross_pair(n: int, k: int) -> (int, int) {
    (n - k / 2, -n + (k + 1) / 2)
}

/// The number of pairs that `cross_range(n)` yields.
pub open spec fn cross_len(n: int) -> int {
    4 * n + 1
}

/// Which coordinate the next step of a `CrossRange` moves.
pub enum State {
    A,
    B,
}

/// Walks the pairs `cross_pair(n, 0)`, `cross_pair(n, 1)`, ..., one per call of
/// `next`, and then returns `None` for good.
pub struct CrossRange {
    n: usize,
    a: isize,
    b: isize,
    state: State,
}

impl CrossRange {
    /// The `n` the range was made with.
    pub closed spec fn spec_n(&self) -> int {
        self.n as int
    }

    /// How many pairs have been handed out so far.
    pub closed spec fn position(&self) -> int {
        match self.state {
            State::A => 2 * (self.b + self.n),
            State::B => 2 * (self.b + self.n) + 1,
        }
    }

    #[verifier::type_invariant]
    closed spec fn inv(&self) -> bool {
        &&& self.n < isize::MAX
        &&& 0 <= self.position() <= cross_len(self.n as int)
        &&& self.a == self.n - (self.position() - 1) / 2
    }

    /// Hands out the next pair, or `None` once all `4 * n + 1` pairs are out.
    pub fn next(&mut self) -> (res: Option<(isize, isize)>)
        ensures
            final(self).spec_n() == old(self).spec_n(),
            old(self).position() == cross_len(old(self).spec_n()) ==> {
                &&& res is None
                &&& final(self).position() == old(self).position()
            },
            old(self).position() < cross_len(old(self).spec_n()) ==> {
                &&& res matches Some(p) && p.0 == cross_pair(old(self).spec_n(), old(self).position()).0
                    && p.1 == cross_pair(old(self).spec_n(), old(self).position()).1
                &&& final(self).position() == old(self).position() + 1
            },
    {
        proof {
            use_type_invariant(&*self);
        }
        let n = self.n as isize;
        match self.state {
            State::A => {
                if self.a == -n {
                    return None;
                }
                *self = CrossRange { n: self.n, a: self.a - 1, b: self.b, state: State::B };
            },
            State::B => {
                if self.b == n {
                    return None;
                }
                *self = CrossRange { n: self.n, a: self.a, b: self.b + 1, state: State::A };
            },
        }
        Some((self.a, self.b))
    }

    /// The pairs that are still to come, in order.
    pub fn to_vec(self) -> (res: Vec<(isize, isize)>)
        ensures
            res@.len() == cross_len(self.spec_n()) - self.position(),
            forall|i: int|
                0 <= i < res@.len() ==> {
                    &&& #[trigger] res@[i].0 == cross_pair(self.spec_n(), self.position() + i).0
                    &&& res@[i].1 == cross_pair(self.spec_n(), self.position() + i).1
                },
    {
        proof {
            use_type_invariant(&self);
        }
        let ghost start = self.position();
        let ghost n = self.spec_n();
        let mut it = self;
        let mut res: Vec<(isize, isize)> = Vec::new();
        loop
            invariant
                it.spec_n() == n,
                it.position() == start + res@.len(),
                0 <= start <= it.position() <= cross_len(n),
                forall|i: int|
                    0 <= i < res@.len() ==> {
                        &&& #[trigger] res@[i].0 == cross_pair(n, start + i).0
                        &&& res@[i].1 == cross_pair(n, start + i).1
                    },
            ensures
                res@.len() == cross_len(n) - start,
                forall|i: int|
                    0 <= i < res@.len() ==> {
                        &&& #[trigger] res@[i].0 == cross_pair(n, start + i).0
                        &&& res@[i].1 == cross_pair(n, start + i).1
                    },
            decreases cross_len(n) - it.position(),
        {
            proof {
                use_type_invariant(&it);
            }
            match it.next() {
                Some(p) => {
                    res.push(p);
                },
                None => {
                    break ;
                },
            }
        }
        res
    }
}

/// The walk over the pairs `cross_pair(n, k)` for `k` from `0` to `4 * n`.
pub fn cross_range(n: usize) -> (res: CrossRange)
    requires
        n < isize::MAX,
    ensures
        res.spec_n() == n,
        res.position() == 0,
{
    CrossRange { n: n, a: (n as isize) + 1, b: -(n as isize), state: State::A }
}

/// The walk starts at `(n, -n)` and ends at `(-n, n)`; every pair lies in
/// the square `[-n, n] x [-n, n]` on or just above the anti-diagonal (its two
/// components add up to 0 or 1); and each step moves one component by one,
/// the second one up after an even position and the first one down after an
/// odd one.
pub proof fn lemma_cross_walk(n: int, k: int)
    requires
        n >= 0,
        0 <= k < cross_len(n),
    ensures
        cross_pair(n, 0) == (n, -n),
        cross_pair(n, cross_len(n) - 1) == (-n, n),
        -n <= cross_pair(n, k).0 <= n,
        -n <= cross_pair(n, k).1 <= n,
        0 <= cross_pair(n, k).0 + cross_pair(n, k).1 <= 1,
        k + 1 < cross_len(n) && k % 2 == 0 ==> cross_pair(n, k + 1) == (cross_pair(n, k).0, cross_pair(n, k).1 + 1),
        k + 1 < cross_len(n) && k % 2 == 1 ==> cross_pair(n, k + 1) == (cross_pair(n, k).0 - 1, cross_pair(n, k).1),
{
    let q = k / 2;
    assert(k == 2 * q + k % 2);
    if k % 2 == 0 {
        assert((k + 1) / 2 == q && (k + 2) / 2 == q + 1);
    } else {
        assert((k + 1) / 2 == q + 1 && (k + 2) / 2 == q + 1);
    }
}

} // verus!
