//! Basic facts about the model: bounds on dot products, maxima and
//! scores, and properties of collection offsets.

use vstd::prelude::*;
use crate::model::{
    dot_s, seq_max, sim_val, offset_of, SimilarityMode, MAX_ABS_VALUE, MAX_DIM, MAX_SIM_ABS,
    SIM_SCALE,
};

verus! {

/// A dot product of vectors with components in `[-bound, bound]` is at
/// most `len * bound * bound` in magnitude.
pub proof fn lemma_dot_bound(a: Seq<int>, b: Seq<int>, bound: int)
    requires
        a.len() == b.len(),
        bound >= 0,
        forall|i: int| 0 <= i < a.len() ==> -bound <= #[trigger] a[i] <= bound,
        forall|i: int| 0 <= i < b.len() ==> -bound <= #[trigger] b[i] <= bound,
    ensures
        -(a.len() * bound * bound) <= dot_s(a, b) <= a.len() * bound * bound,
    decreases a.len(),
{
    if a.len() == 0 {
    } else {
        let n = a.len() as int;
        let x = a.last();
        let y = b.last();
        lemma_dot_bound(a.drop_last(), b.drop_last(), bound);
        let d = dot_s(a.drop_last(), b.drop_last());
        assert(-((n - 1) * bound * bound) <= d <= (n - 1) * bound * bound);
        assert(-(n * bound * bound) <= d + x * y <= n * bound * bound) by (nonlinear_arith)
            requires
                -((n - 1) * bound * bound) <= d <= (n - 1) * bound * bound,
                -bound <= x <= bound,
                -bound <= y <= bound,
                bound >= 0,
        ;
    }
}

/// The dot product of a vector with itself is non-negative.
pub proof fn lemma_dot_self_nonneg(a: Seq<int>)
    ensures
        dot_s(a, a) >= 0,
    decreases a.len(),
{
    if a.len() == 0 {
    } else {
        lemma_dot_self_nonneg(a.drop_last());
        let x = a.last();
        assert(x * x >= 0) by (nonlinear_arith);
    }
}

/// Every element is at most the sequence maximum.
pub proof fn lemma_seq_max_ge(s: Seq<int>, i: int)
    requires
        0 <= i < s.len(),
    ensures
        s[i] <= seq_max(s),
    decreases s.len(),
{
    if s.len() == 1 {
    } else if i == s.len() - 1 {
        assert(s.last() <= seq_max(s));
    } else {
        lemma_seq_max_ge(s.drop_last(), i);
    }
}

/// An upper bound on every element bounds the maximum.
pub proof fn lemma_seq_max_le(s: Seq<int>, m: int)
    requires
        s.len() > 0,
        forall|i: int| 0 <= i < s.len() ==> #[trigger] s[i] <= m,
    ensures
        seq_max(s) <= m,
    decreases s.len(),
{
    if s.len() == 1 {
    } else {
        lemma_seq_max_le(s.drop_last(), m);
    }
}

/// Any similarity value of bounded tokens is at most `MAX_SIM_ABS` in
/// magnitude.
pub proof fn lemma_sim_val_bound(mode: SimilarityMode, a: Seq<int>, b: Seq<int>)
    requires
        a.len() == b.len(),
        a.len() <= MAX_DIM,
        forall|i: int| 0 <= i < a.len() ==> -MAX_ABS_VALUE <= #[trigger] a[i] <= MAX_ABS_VALUE,
        forall|i: int| 0 <= i < b.len() ==> -MAX_ABS_VALUE <= #[trigger] b[i] <= MAX_ABS_VALUE,
    ensures
        -MAX_SIM_ABS <= sim_val(mode, a, b) <= MAX_SIM_ABS,
{
    match mode {
        SimilarityMode::Dot => {
            lemma_dot_bound(a, b, MAX_ABS_VALUE as int);
            let n = a.len() as int;
            assert(n * MAX_ABS_VALUE * MAX_ABS_VALUE <= MAX_SIM_ABS) by (nonlinear_arith)
                requires 0 <= n <= MAX_DIM,
            ;
        },
        SimilarityMode::Cosine => {
            let v = sim_val(mode, a, b);
            assert(-(SIM_SCALE as int) <= v <= SIM_SCALE as int);
        },
    }
}

/// Collection offsets are non-negative.
pub proof fn lemma_offset_nonneg(dlens: Seq<usize>, dim: nat, i: int)
    ensures
        offset_of(dlens, dim, i) >= 0,
    decreases i,
{
    if i > 0 {
        lemma_offset_nonneg(dlens, dim, i - 1);
        assert(dlens[i - 1] * dim >= 0) by (nonlinear_arith)
            requires dlens[i - 1] >= 0, dim >= 0,
        ;
    }
}

/// Collection offsets grow with the document index.
pub proof fn lemma_offset_mono(dlens: Seq<usize>, dim: nat, i: int, j: int)
    requires
        0 <= i <= j,
    ensures
        offset_of(dlens, dim, i) <= offset_of(dlens, dim, j),
    decreases j - i,
{
    if i < j {
        lemma_offset_mono(dlens, dim, i, j - 1);
        assert(dlens[j - 1] * dim >= 0) by (nonlinear_arith)
            requires dlens[j - 1] >= 0, dim >= 0,
        ;
    }
}

/// A window into a bounded buffer has bounded components.
pub proof fn lemma_window_bounded(s: Seq<i64>, off: int, n: nat)
    requires
        0 <= off,
        off + n <= s.len(),
        crate::model::vals_bounded(s),
    ensures
        forall|k: int|
            0 <= k < n ==> -MAX_ABS_VALUE <= #[trigger] crate::model::seq_window(s, off, n)[k]
                <= MAX_ABS_VALUE,
{
    assert forall|k: int| 0 <= k < n implies -MAX_ABS_VALUE <= #[trigger] crate::model::seq_window(
        s,
        off,
        n,
    )[k] <= MAX_ABS_VALUE by {
        assert(crate::model::seq_window(s, off, n)[k] == s[off + k] as int);
    }
}

/// Two equal regions of two buffers hold the same tokens.
pub proof fn lemma_doc_tokens_eq(
    s1: Seq<i64>,
    off1: int,
    s2: Seq<i64>,
    off2: int,
    len: nat,
    dim: nat,
)
    requires
        forall|x: int| 0 <= x < len * dim ==> s1[off1 + x] == #[trigger] s2[off2 + x],
    ensures
        crate::model::doc_tokens(s1, off1, len, dim) == crate::model::doc_tokens(
            s2,
            off2,
            len,
            dim,
        ),
{
    let d1 = crate::model::doc_tokens(s1, off1, len, dim);
    let d2 = crate::model::doc_tokens(s2, off2, len, dim);
    assert forall|t: int| 0 <= t < len implies d1[t] == d2[t] by {
        let w1 = crate::model::seq_window(s1, off1 + t * (dim as int), dim);
        let w2 = crate::model::seq_window(s2, off2 + t * (dim as int), dim);
        assert forall|k: int| 0 <= k < dim implies w1[k] == w2[k] by {
            assert(0 <= t * (dim as int) + k < len * dim) by (nonlinear_arith)
                requires 0 <= t < len, 0 <= k < dim,
            ;
            assert(s1[off1 + (t * (dim as int) + k)] == s2[off2 + (t * (dim as int) + k)]);
        }
        assert(w1 =~= w2);
    }
    assert(d1 =~= d2);
}

} // verus!
