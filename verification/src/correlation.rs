//! The order in which the one-dimensional correlation of two equally long
//! signals visits the offsets between them.
use vstd::prelude::*;

verus! {

/// The `k`-th pair of start positions, in the reference and in the sample,
/// for offsets up to `n`: the reference start moves up first, then the
/// sample start down, in turns.
pub open spec fn start_pair(n: int, k: int) -> (int, int) {
    ((k + 1) / 2, n - k / 2)
}

/// The start positions of the `2 * n + 1` windows that the correlation for
/// offsets from `-n` to `n` compares, in the order it compares them.
pub fn correlation_starts(n: usize) -> (res: Vec<(usize, usize)>)
    requires
        n < usize::MAX,
    ensures
        res@.len() == 2 * n + 1,
        forall|k: int|
            0 <= k < res@.len() ==> #[trigger] res@[k].0 == start_pair(n as int, k).0 && res@[k].1
                == start_pair(n as int, k).1,
{
    let mut res: Vec<(usize, usize)> = Vec::new();
    let mut r_start: usize = 0;
    let mut s_start: usize = n;
    loop
        invariant_except_break
            r_start <= n,
            res@.len() == 2 * r_start,
            s_start == n - r_start,
        invariant
            n < usize::MAX,
            forall|k: int|
                0 <= k < res@.len() ==> #[trigger] res@[k].0 == start_pair(n as int, k).0 && res@[k].1
                    == start_pair(n as int, k).1,
        ensures
            res@.len() == 2 * n + 1,
            forall|k: int|
                0 <= k < res@.len() ==> #[trigger] res@[k].0 == start_pair(n as int, k).0 && res@[k].1
                    == start_pair(n as int, k).1,
        decreases n - r_start,
    {
        let k = res.len();
        assert(start_pair(n as int, k as int) == (r_start as int, s_start as int));
        res.push((r_start, s_start));
        r_start = r_start + 1;
        if r_start > n {
            break;
        }
        assert(start_pair(n as int, k + 1) == (r_start as int, s_start as int));
        res.push((r_start, s_start));
        if s_start == 0 {
            break;
        }
        s_start = s_start - 1;
    }
    res
}

/// The `k`-th pair of windows lies `k - n` samples apart, so the
/// correlation walks the offsets from `-n` to `n` in order, and both windows
/// start within `0..=n`.
pub proof fn lemma_start_pair_offset(n: int, k: int)
    requires
        n >= 0,
        0 <= k <= 2 * n,
    ensures
        start_pair(n, k).0 - start_pair(n, k).1 == k - n,
        0 <= start_pair(n, k).0 <= n,
        0 <= start_pair(n, k).1 <= n,
{
    assert(k == 2 * (k / 2) + k % 2);
}

} // verus!
