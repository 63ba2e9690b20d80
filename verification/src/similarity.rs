//! Pairwise token similarity: exact dot products and fixed-point cosine.

use vstd::prelude::*;
use crate::model::{
    clamp_sim, dot_s, seq_window, sim_val, tdiv, vals_bounded, SimilarityMode, MAX_ABS_VALUE,
    MAX_DIM, MAX_SIM_ABS, SIM_SCALE,
};
use crate::lemmas::lemma_dot_self_nonneg;
use crate::isqrt::isqrt64;

verus! {

/// Extending both prefixes by one component adds one product to the dot.
pub proof fn lemma_dot_take_step(a: Seq<int>, b: Seq<int>, k: int)
    requires
        a.len() == b.len(),
        0 <= k < a.len(),
    ensures
        dot_s(a.take(k + 1), b.take(k + 1)) == dot_s(a.take(k), b.take(k)) + a[k] * b[k],
{
    assert(a.take(k + 1).drop_last() =~= a.take(k));
    assert(b.take(k + 1).drop_last() =~= b.take(k));
    assert(a.take(k + 1).last() == a[k]);
    assert(b.take(k + 1).last() == b[k]);
}

/// Dot product of the `dim`-component windows of `a` at `aoff` and of
/// `b` at `boff`.
pub fn dot_window(a: &Vec<i64>, aoff: usize, b: &Vec<i64>, boff: usize, dim: usize) -> (r: i64)
    requires
        aoff + dim <= a.len(),
        boff + dim <= b.len(),
        dim <= MAX_DIM,
        vals_bounded(a@),
        vals_bounded(b@),
    ensures
        r as int == dot_s(
            seq_window(a@, aoff as int, dim as nat),
            seq_window(b@, boff as int, dim as nat),
        ),
        -MAX_SIM_ABS <= r <= MAX_SIM_ABS,
{
    let ghost wa = seq_window(a@, aoff as int, dim as nat);
    let ghost wb = seq_window(b@, boff as int, dim as nat);
    let mut acc: i64 = 0;
    let mut k: usize = 0;
    while k < dim
        invariant
            k <= dim,
            aoff + dim <= a.len(),
            boff + dim <= b.len(),
            dim <= MAX_DIM,
            vals_bounded(a@),
            vals_bounded(b@),
            wa == seq_window(a@, aoff as int, dim as nat),
            wb == seq_window(b@, boff as int, dim as nat),
            acc as int == dot_s(wa.take(k as int), wb.take(k as int)),
            -(k as int * 4294967296) <= acc as int <= k as int * 4294967296,
        decreases dim - k,
    {
        let x = a[aoff + k];
        let y = b[boff + k];
        proof {
            assert(-65536 <= x <= 65536);
            assert(-65536 <= y <= 65536);
            assert(-4294967296 <= x as int * y as int <= 4294967296) by (nonlinear_arith)
                requires -65536 <= x as int <= 65536, -65536 <= y as int <= 65536,
            ;
            assert((k as int + 1) * 4294967296 <= 4096 * 4294967296) by (nonlinear_arith)
                requires k as int + 1 <= 4096,
            ;
            assert(k as int * 4294967296 + 4294967296 == (k as int + 1) * 4294967296)
                by (nonlinear_arith);
            lemma_dot_take_step(wa, wb, k as int);
            assert(wa[k as int] == x as int);
            assert(wb[k as int] == y as int);
        }
        let prod: i64 = x * y;
        acc = acc + prod;
        k = k + 1;
    }
    proof {
        assert(wa.take(dim as int) =~= wa);
        assert(wb.take(dim as int) =~= wb);
        assert(dim as int * 4294967296 <= MAX_SIM_ABS) by (nonlinear_arith)
            requires dim as int <= 4096,
        ;
    }
    acc
}

/// Exact dot product of two equal-length component buffers.
pub fn dot_product(a: &Vec<i64>, b: &Vec<i64>) -> (r: i64)
    requires
        a.len() == b.len(),
        a.len() <= MAX_DIM,
        vals_bounded(a@),
        vals_bounded(b@),
    ensures
        r as int == dot_s(
            seq_window(a@, 0, a.len() as nat),
            seq_window(b@, 0, b.len() as nat),
        ),
{
    dot_window(a, 0, b, 0, a.len())
}

/// Similarity between the token of `a` at `aoff` and the token of `b` at
/// `boff`, under the given mode.
pub fn score_pair(
    mode: SimilarityMode,
    a: &Vec<i64>,
    aoff: usize,
    b: &Vec<i64>,
    boff: usize,
    dim: usize,
) -> (r: i64)
    requires
        aoff + dim <= a.len(),
        boff + dim <= b.len(),
        dim <= MAX_DIM,
        vals_bounded(a@),
        vals_bounded(b@),
    ensures
        r as int == sim_val(
            mode,
            seq_window(a@, aoff as int, dim as nat),
            seq_window(b@, boff as int, dim as nat),
        ),
        -MAX_SIM_ABS <= r <= MAX_SIM_ABS,
{
    let ghost wa = seq_window(a@, aoff as int, dim as nat);
    let ghost wb = seq_window(b@, boff as int, dim as nat);
    match mode {
        SimilarityMode::Dot => dot_window(a, aoff, b, boff, dim),
        SimilarityMode::Cosine => {
            let d = dot_window(a, aoff, b, boff, dim);
            let na2 = dot_window(a, aoff, a, aoff, dim);
            let nb2 = dot_window(b, boff, b, boff, dim);
            proof {
                lemma_dot_self_nonneg(wa);
                lemma_dot_self_nonneg(wb);
            }
            if na2 == 0 || nb2 == 0 {
                return 0;
            }
            let na = isqrt64(na2 as u64);
            let nb = isqrt64(nb2 as u64);
            proof {
                // na2 >= 1, so its root is at least 1; same for nb2.
                assert(na >= 1 && nb >= 1) by (nonlinear_arith)
                    requires
                        na2 as int >= 1,
                        nb2 as int >= 1,
                        (na2 as int) < (na as int + 1) * (na as int + 1),
                        (nb2 as int) < (nb as int + 1) * (nb as int + 1),
                        na as int >= 0,
                        nb as int >= 0,
                ;
                assert(1 <= na as int * nb as int <= 17592186044416) by (nonlinear_arith)
                    requires 1 <= na as int <= 4194304, 1 <= nb as int <= 4194304,
                ;
            }
            let den: u64 = na * nb;
            let mag: u64 = if d >= 0 {
                d as u64
            } else {
                (-d) as u64
            };
            let num: u64 = mag * 65536;
            let q: u64 = num / den;
            let qc: u64 = if q > 65536 {
                65536
            } else {
                q
            };
            let r: i64 = if d >= 0 {
                qc as i64
            } else {
                -(qc as i64)
            };
            proof {
                let di = d as int;
                let si = SIM_SCALE as int;
                let deni = den as int;
                let ti = tdiv(di * si, deni);
                assert(num as int == mag as int * 65536);
                if di >= 0 {
                    assert(mag as int == di);
                    assert(ti == (di * si) / deni);
                    assert(q as int == (num as int) / deni);
                    assert(clamp_sim(ti) == qc as int);
                } else {
                    assert(mag as int == -di);
                    assert(ti == -((-(di * si)) / deni));
                    assert(-(di * si) == mag as int * si);
                    assert(q as int == (num as int) / deni);
                    assert((num as int) / deni >= 0) by (nonlinear_arith)
                        requires num as int >= 0, deni >= 1,
                    ;
                    assert(clamp_sim(ti) == -(qc as int));
                }
                assert(sim_val(mode, wa, wb) == clamp_sim(ti));
            }
            r
        },
    }
}

} // verus!
