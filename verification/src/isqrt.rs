//! Integer square root, used by cosine similarity for the vector norms.

use vstd::prelude::*;
use crate::model::{isqrt_s, MAX_SIM_ABS};

verus! {

/// `isqrt_s(n)` is the unique `r` with `r * r <= n < (r + 1) * (r + 1)`.
pub proof fn lemma_isqrt_bracket(n: nat)
    ensures
        isqrt_s(n) * isqrt_s(n) <= n,
        n < (isqrt_s(n) + 1) * (isqrt_s(n) + 1),
    decreases n,
{
    if n == 0 {
        assert(isqrt_s(n) == 0);
        assert(n < (isqrt_s(n) + 1) * (isqrt_s(n) + 1)) by (nonlinear_arith)
            requires n == 0nat, isqrt_s(n) == 0nat,
        ;
    } else {
        lemma_isqrt_bracket((n - 1) as nat);
        let r = isqrt_s((n - 1) as nat);
        if (r + 1) * (r + 1) <= n {
            assert(isqrt_s(n) == r + 1);
            assert(n < (r + 2) * (r + 2)) by (nonlinear_arith)
                requires n < (r + 1) * (r + 1) + 1, r >= 0,
            ;
            assert(isqrt_s(n) * isqrt_s(n) <= n);
            assert(n < (isqrt_s(n) + 1) * (isqrt_s(n) + 1));
        } else {
            assert(isqrt_s(n) == r);
            assert(isqrt_s(n) * isqrt_s(n) <= n);
            assert(n < (isqrt_s(n) + 1) * (isqrt_s(n) + 1));
        }
    }
}

/// Any bracketed value equals `isqrt_s`.
pub proof fn lemma_isqrt_unique(n: nat, r: nat)
    requires
        r * r <= n,
        n < (r + 1) * (r + 1),
    ensures
        r == isqrt_s(n),
{
    lemma_isqrt_bracket(n);
    let s = isqrt_s(n);
    if r < s {
        assert((r + 1) * (r + 1) <= s * s) by (nonlinear_arith)
            requires r + 1 <= s,
        ;
    } else if s < r {
        assert((s + 1) * (s + 1) <= r * r) by (nonlinear_arith)
            requires s + 1 <= r,
        ;
    }
}

/// Floor of the square root, by binary search.
pub fn isqrt64(n: u64) -> (r: u64)
    requires
        n <= MAX_SIM_ABS,
    ensures
        r == isqrt_s(n as nat),
        r * r <= n,
        n < (r + 1) * (r + 1),
        r <= 4194304,
{
    let mut lo: u64 = 0;
    let mut hi: u64 = 4194304;
    assert((hi + 1) * (hi + 1) > MAX_SIM_ABS) by (nonlinear_arith)
        requires hi == 4194304u64,
    ;
    while lo < hi
        invariant
            lo <= hi <= 4194304,
            lo * lo <= n,
            n < (hi + 1) * (hi + 1),
        decreases hi - lo,
    {
        let mid: u64 = (lo + hi + 1) / 2;
        assert(lo < mid <= hi);
        assert(mid * mid <= 17592186044416) by (nonlinear_arith)
            requires mid <= 4194304u64,
        ;
        if mid * mid <= n {
            lo = mid;
        } else {
            hi = mid - 1;
        }
    }
    proof {
        lemma_isqrt_unique(n as nat, lo as nat);
    }
    lo
}

} // verus!
