//! Max-reduction: per-row maxima of a similarity buffer, their sum, and
//! the aggregate (raw sum or length-normalized mean).

use vstd::prelude::*;
use crate::model::{
    maxsim_sum, seq_max, seq_window, sim_row, tdiv, Aggregate, SimilarityMode, MAX_SCORE_ABS,
    MAX_SIM_ABS, MAX_TOKENS,
};
use crate::lemmas::{lemma_seq_max_ge, lemma_seq_max_le};

verus! {

/// Sum over the first `qn` rows of the maximum of the row's window:
/// row `i` occupies `rlen` cells starting at `i * stride + col`.
pub open spec fn rows_sum(sim: Seq<i64>, qn: nat, stride: int, col: int, rlen: nat) -> int
    decreases qn,
{
    if qn == 0 {
        0
    } else {
        rows_sum(sim, (qn - 1) as nat, stride, col, rlen) + seq_max(
            seq_window(sim, (qn - 1) * stride + col, rlen),
        )
    }
}

/// Extending a window by one cell updates its maximum in the obvious way.
proof fn lemma_seq_max_take_step(s: Seq<int>, j: int)
    requires
        1 <= j < s.len(),
    ensures
        seq_max(s.take(j + 1)) == if s[j] > seq_max(s.take(j)) {
            s[j]
        } else {
            seq_max(s.take(j))
        },
{
    assert(s.take(j + 1).drop_last() =~= s.take(j));
    assert(s.take(j + 1).last() == s[j]);
}

/// Maximum of the `len` cells starting at `start`.
pub fn row_max(sim: &Vec<i64>, start: usize, len: usize) -> (r: i64)
    requires
        start + len <= sim.len(),
        len >= 1,
    ensures
        r as int == seq_max(seq_window(sim@, start as int, len as nat)),
{
    let ghost w = seq_window(sim@, start as int, len as nat);
    let mut m: i64 = sim[start];
    let mut j: usize = 1;
    proof {
        assert(w.take(1).len() == 1);
        assert(w.take(1)[0] == w[0]);
        assert(seq_max(w.take(1)) == w[0]);
    }
    while j < len
        invariant
            1 <= j <= len,
            start + len <= sim.len(),
            w == seq_window(sim@, start as int, len as nat),
            m as int == seq_max(w.take(j as int)),
        decreases len - j,
    {
        proof {
            lemma_seq_max_take_step(w, j as int);
            assert(w[j as int] == sim@[start + j] as int);
        }
        let c = sim[start + j];
        if c > m {
            m = c;
        }
        j = j + 1;
    }
    proof {
        assert(w.take(len as int) =~= w);
    }
    m
}

/// Sum of the row maxima over `qn` strided rows.
pub fn reduce_rows(sim: &Vec<i64>, qn: usize, stride: usize, col: usize, rlen: usize) -> (r: i64)
    requires
        1 <= qn <= MAX_TOKENS,
        rlen >= 1,
        (qn - 1) * stride + col + rlen <= sim.len(),
        forall|i: int, j: int|
            0 <= i < qn && 0 <= j < rlen ==> -MAX_SIM_ABS <= #[trigger] sim@[i * stride + col + j]
                <= MAX_SIM_ABS,
    ensures
        r as int == rows_sum(sim@, qn as nat, stride as int, col as int, rlen as nat),
        -MAX_SCORE_ABS <= r <= MAX_SCORE_ABS,
        -(qn as int * MAX_SIM_ABS) <= r as int <= qn as int * MAX_SIM_ABS,
{
    let mut acc: i64 = 0;
    let mut i: usize = 0;
    while i < qn
        invariant
            0 <= i <= qn <= MAX_TOKENS,
            rlen >= 1,
            (qn - 1) * stride + col + rlen <= sim.len(),
            forall|a: int, j: int|
                0 <= a < qn && 0 <= j < rlen ==> -MAX_SIM_ABS <= #[trigger] sim@[a * stride + col
                    + j] <= MAX_SIM_ABS,
            acc as int == rows_sum(sim@, i as nat, stride as int, col as int, rlen as nat),
            -(i as int * MAX_SIM_ABS) <= acc as int <= i as int * MAX_SIM_ABS,
        decreases qn - i,
    {
        proof {
            assert(i as int * stride as int <= (qn - 1) as int * stride as int) by (nonlinear_arith)
                requires 0 <= i as int <= (qn - 1) as int, stride as int >= 0,
            ;
        }
        let base: usize = i * stride + col;
        let rm = row_max(sim, base, rlen);
        proof {
            let w = seq_window(sim@, base as int, rlen as nat);
            assert(forall|j: int| 0 <= j < rlen ==> w[j] == sim@[i as int * stride as int + col + j] as int);
            lemma_seq_max_le(w, MAX_SIM_ABS as int);
            lemma_seq_max_ge(w, 0);
            assert(-MAX_SIM_ABS <= w[0]);
            assert((i as int + 1) * MAX_SIM_ABS == i as int * MAX_SIM_ABS + MAX_SIM_ABS)
                by (nonlinear_arith);
            assert((i as int + 1) * MAX_SIM_ABS <= MAX_SCORE_ABS) by (nonlinear_arith)
                requires i as int + 1 <= MAX_TOKENS as int,
            ;
        }
        acc = acc + rm;
        i = i + 1;
    }
    proof {
        assert(qn as int * MAX_SIM_ABS <= MAX_SCORE_ABS) by (nonlinear_arith)
            requires qn as int <= MAX_TOKENS as int,
        ;
    }
    acc
}

/// Apply the aggregate: the raw sum, or the mean over the query length
/// (integer division truncating toward zero).
pub fn apply_aggregate(sum: i64, qn: usize, agg: Aggregate) -> (r: i64)
    requires
        qn >= 1,
        -MAX_SCORE_ABS <= sum <= MAX_SCORE_ABS,
    ensures
        r as int == match agg {
            Aggregate::Sum => sum as int,
            Aggregate::Mean => tdiv(sum as int, qn as int),
        },
{
    match agg {
        Aggregate::Sum => sum,
        Aggregate::Mean => {
            if sum >= 0 {
                let q: u64 = (sum as u64) / (qn as u64);
                proof {
                    assert(sum as int / qn as int <= sum as int) by (nonlinear_arith)
                        requires sum as int >= 0, qn as int >= 1,
                    ;
                    assert(sum as int / qn as int >= 0) by (nonlinear_arith)
                        requires sum as int >= 0, qn as int >= 1,
                    ;
                }
                q as i64
            } else {
                let mag: u64 = (-sum) as u64;
                let q: u64 = mag / (qn as u64);
                proof {
                    assert(mag as int / qn as int <= mag as int) by (nonlinear_arith)
                        requires mag as int >= 0, qn as int >= 1,
                    ;
                    assert(mag as int / qn as int >= 0) by (nonlinear_arith)
                        requires mag as int >= 0, qn as int >= 1,
                    ;
                }
                -(q as i64)
            }
        },
    }
}

/// When every row window of the buffer holds exactly the similarities of
/// the corresponding query token against all document tokens, the strided
/// row-max sum is the MaxSim sum.
pub proof fn lemma_rows_sum_is_maxsim(
    sim: Seq<i64>,
    stride: int,
    col: int,
    mode: SimilarityMode,
    qtoks: Seq<Seq<int>>,
    dtoks: Seq<Seq<int>>,
)
    requires
        dtoks.len() >= 1,
        forall|i: int|
            0 <= i < qtoks.len() ==> seq_window(sim, i * stride + col, dtoks.len()) == #[trigger] sim_row(
                mode,
                qtoks[i],
                dtoks,
            ),
    ensures
        rows_sum(sim, qtoks.len(), stride, col, dtoks.len()) == maxsim_sum(mode, qtoks, dtoks),
    decreases qtoks.len(),
{
    if qtoks.len() == 0 {
    } else {
        let qn = qtoks.len() as int;
        let prefix = qtoks.drop_last();
        assert(forall|i: int| 0 <= i < prefix.len() ==> #[trigger] prefix[i] == qtoks[i]);
        lemma_rows_sum_is_maxsim(sim, stride, col, mode, prefix, dtoks);
        assert(seq_window(sim, (qn - 1) * stride + col, dtoks.len()) == sim_row(
            mode,
            qtoks[qn - 1],
            dtoks,
        ));
        assert(qtoks.last() == qtoks[qn - 1]);
    }
}

} // verus!
