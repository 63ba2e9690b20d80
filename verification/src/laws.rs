//! Laws of the scoring model, stated and proved once and for all: the
//! Cauchy–Schwarz inequality for integer vectors, the perfect-match
//! property of dot-mode scoring, the agreement of the batched per-document
//! score with single-document scoring, and the harmlessness of zero-vector
//! padding.

use vstd::prelude::*;
use crate::model::{
    batch_doc_score_s, dot_s, maxsim_score_s, maxsim_sum, offset_of, seq_max, sim_row, sim_val,
    single_score_s, total_size_s, Aggregate, SimilarityMode,
};
use crate::lemmas::{
    lemma_doc_tokens_eq, lemma_dot_self_nonneg, lemma_offset_mono, lemma_offset_nonneg,
    lemma_seq_max_ge, lemma_seq_max_le,
};
use vstd::arithmetic::div_mod::lemma_div_multiples_vanish;

verus! {

/// Cauchy–Schwarz: the square of a dot product is at most the product of
/// the squared norms.
pub proof fn lemma_cauchy_schwarz(a: Seq<int>, b: Seq<int>)
    requires
        a.len() == b.len(),
    ensures
        dot_s(a, b) * dot_s(a, b) <= dot_s(a, a) * dot_s(b, b),
    decreases a.len(),
{
    if a.len() == 0 {
    } else {
        let a1 = a.drop_last();
        let b1 = b.drop_last();
        lemma_cauchy_schwarz(a1, b1);
        lemma_dot_self_nonneg(a1);
        lemma_dot_self_nonneg(b1);
        let aa = dot_s(a1, a1);
        let bb = dot_s(b1, b1);
        let ab = dot_s(a1, b1);
        let x = a.last();
        let y = b.last();
        let xx = x * x;
        let yy = y * y;
        let xy = x * y;
        assert(xy * xy == xx * yy) by (nonlinear_arith)
            requires xx == x * x, yy == y * y, xy == x * y,
        ;
        assert(xx >= 0 && yy >= 0) by (nonlinear_arith)
            requires xx == x * x, yy == y * y,
        ;
        assert((2 * (ab * xy)) * (2 * (ab * xy)) <= (4 * (aa * bb)) * (xy * xy))
            by (nonlinear_arith)
            requires ab * ab <= aa * bb,
        ;
        assert((aa * yy + bb * xx) * (aa * yy + bb * xx) >= (4 * (aa * bb)) * (xy * xy))
            by (nonlinear_arith)
            requires xy * xy == xx * yy,
        ;
        assert(aa * yy + bb * xx >= 0) by (nonlinear_arith)
            requires aa >= 0, bb >= 0, xx >= 0, yy >= 0,
        ;
        assert(2 * (ab * xy) <= aa * yy + bb * xx) by (nonlinear_arith)
            requires
                (2 * (ab * xy)) * (2 * (ab * xy)) <= (aa * yy + bb * xx) * (aa * yy + bb * xx),
                aa * yy + bb * xx >= 0,
        ;
        assert((ab + xy) * (ab + xy) == ab * ab + 2 * (ab * xy) + xy * xy) by (nonlinear_arith);
        assert((aa + xx) * (bb + yy) == aa * bb + aa * yy + bb * xx + xx * yy) by (nonlinear_arith);
        assert((ab + xy) * (ab + xy) <= (aa + xx) * (bb + yy));
        assert(dot_s(a, b) == ab + xy);
        assert(dot_s(a, a) == aa + xx);
        assert(dot_s(b, b) == bb + yy);
    }
}

/// The dot product with an all-zero vector is zero.
pub proof fn lemma_dot_zero(a: Seq<int>, z: Seq<int>)
    requires
        a.len() == z.len(),
        forall|k: int| 0 <= k < z.len() ==> #[trigger] z[k] == 0,
    ensures
        dot_s(a, z) == 0,
    decreases a.len(),
{
    if a.len() > 0 {
        lemma_dot_zero(a.drop_last(), z.drop_last());
        assert(a.last() * z.last() == 0) by (nonlinear_arith)
            requires z.last() == 0int,
        ;
    }
}

/// When every row maximum is `u`, the MaxSim sum is `q.len() * u`.
proof fn lemma_sum_const_rows(q: Seq<Seq<int>>, d: Seq<Seq<int>>, u: int)
    requires
        d.len() >= 1,
        forall|i: int|
            0 <= i < q.len() ==> seq_max(#[trigger] sim_row(SimilarityMode::Dot, q[i], d)) == u,
    ensures
        maxsim_sum(SimilarityMode::Dot, q, d) == q.len() * u,
    decreases q.len(),
{
    if q.len() == 0 {
        assert(0 * u == 0) by (nonlinear_arith);
    } else {
        let n = q.len() as int;
        let q1 = q.drop_last();
        assert(forall|i: int| 0 <= i < q1.len() ==> #[trigger] q1[i] == q[i]);
        lemma_sum_const_rows(q1, d, u);
        assert(seq_max(sim_row(SimilarityMode::Dot, q[n - 1], d)) == u);
        assert(q.last() == q[n - 1]);
        assert((n - 1) * u + u == n * u) by (nonlinear_arith);
    }
}

/// Perfect-match law: in dot mode, when every document token has squared
/// norm `u` (the model's "unit" norm) and every query token is identical
/// to some document token, every row maximum is exactly `u`, so the raw
/// sum is `q.len() * u` and the mean is `u`.
pub proof fn lemma_perfect_match(q: Seq<Seq<int>>, d: Seq<Seq<int>>, dim: nat, u: int)
    requires
        q.len() >= 1,
        d.len() >= 1,
        forall|j: int| 0 <= j < d.len() ==> (#[trigger] d[j]).len() == dim,
        forall|i: int| 0 <= i < q.len() ==> (#[trigger] q[i]).len() == dim,
        forall|j: int| 0 <= j < d.len() ==> dot_s(#[trigger] d[j], d[j]) == u,
        forall|i: int|
            0 <= i < q.len() ==> exists|j: int| 0 <= j < d.len() && #[trigger] q[i] == d[j],
    ensures
        maxsim_sum(SimilarityMode::Dot, q, d) == q.len() * u,
        maxsim_score_s(SimilarityMode::Dot, Aggregate::Sum, q, d) == q.len() * u,
        maxsim_score_s(SimilarityMode::Dot, Aggregate::Mean, q, d) == u,
{
    lemma_dot_self_nonneg(d[0]);
    assert(u >= 0);
    assert forall|i: int|
        0 <= i < q.len() implies seq_max(#[trigger] sim_row(SimilarityMode::Dot, q[i], d))
        == u by {
        let row = sim_row(SimilarityMode::Dot, q[i], d);
        let j = choose|j: int| 0 <= j < d.len() && q[i] == d[j];
        assert(row[j] == dot_s(q[i], d[j]));
        assert(dot_s(q[i], d[j]) == dot_s(d[j], d[j]));
        lemma_seq_max_ge(row, j);
        assert(dot_s(q[i], q[i]) == u);
        assert forall|jj: int| 0 <= jj < row.len() implies #[trigger] row[jj] <= u by {
            lemma_cauchy_schwarz(q[i], d[jj]);
            assert(row[jj] == dot_s(q[i], d[jj]));
            assert(row[jj] * row[jj] <= u * u);
            assert(row[jj] <= u) by (nonlinear_arith)
                requires row[jj] * row[jj] <= u * u, u >= 0,
            ;
        }
        lemma_seq_max_le(row, u);
    }
    lemma_sum_const_rows(q, d, u);
    let n = q.len() as int;
    assert(n * u >= 0) by (nonlinear_arith)
        requires n >= 1, u >= 0,
    ;
    lemma_div_multiples_vanish(u, n);
    assert(n * u == u * n) by (nonlinear_arith);
    assert((n * u) / n == u);
}

/// Batched scoring agrees with single-document scoring: the score that
/// `maxsim_batch` assigns to document `k` of a flat collection is exactly
/// the score `maxsim_single` assigns to that document's own slice.  In
/// particular the padded, grouped path can never change a score.
pub proof fn lemma_batch_matches_single(
    mode: SimilarityMode,
    agg: Aggregate,
    qflat: Seq<i64>,
    qlen: nat,
    dflat: Seq<i64>,
    dlens: Seq<usize>,
    dim: nat,
    k: int,
)
    requires
        0 <= k < dlens.len(),
        dflat.len() == total_size_s(dlens, dim),
    ensures
        batch_doc_score_s(mode, agg, qflat, qlen, dflat, dlens, dim, k) == single_score_s(
            mode,
            agg,
            qflat,
            qlen,
            dflat.subrange(offset_of(dlens, dim, k), offset_of(dlens, dim, k) + dlens[k] * dim),
            dlens[k] as nat,
            dim,
        ),
{
    let off = offset_of(dlens, dim, k);
    let len = dlens[k] as nat;
    lemma_offset_nonneg(dlens, dim, k);
    lemma_offset_mono(dlens, dim, k + 1, dlens.len() as int);
    assert(offset_of(dlens, dim, k + 1) == off + dlens[k] * dim);
    let sub = dflat.subrange(off, off + dlens[k] * dim);
    assert forall|x: int| 0 <= x < len * dim implies sub[0 + x] == #[trigger] dflat[off + x] by {
        assert(sub[x] == dflat[off + x]);
    }
    lemma_doc_tokens_eq(sub, 0, dflat, off, len, dim);
}

/// Appending one all-zero padding token to a document leaves its dot-mode
/// MaxSim sum unchanged whenever every query token's row maximum is
/// non-negative: a zero similarity can never win such a row.  (The engine
/// never relies on this: it slices each row to the document's true token
/// prefix before the max, which is exact for every sign.)
pub proof fn lemma_zero_token_padding(q: Seq<Seq<int>>, d: Seq<Seq<int>>, z: Seq<int>, dim: nat)
    requires
        d.len() >= 1,
        z.len() == dim,
        forall|k: int| 0 <= k < z.len() ==> #[trigger] z[k] == 0,
        forall|i: int| 0 <= i < q.len() ==> (#[trigger] q[i]).len() == dim,
        forall|i: int|
            0 <= i < q.len() ==> seq_max(#[trigger] sim_row(SimilarityMode::Dot, q[i], d)) >= 0,
    ensures
        maxsim_sum(SimilarityMode::Dot, q, d.push(z)) == maxsim_sum(SimilarityMode::Dot, q, d),
    decreases q.len(),
{
    if q.len() > 0 {
        let q1 = q.drop_last();
        assert(forall|i: int| 0 <= i < q1.len() ==> #[trigger] q1[i] == q[i]);
        lemma_zero_token_padding(q1, d, z, dim);
        let i = q.len() - 1;
        let row = sim_row(SimilarityMode::Dot, q[i], d);
        let row2 = sim_row(SimilarityMode::Dot, q[i], d.push(z));
        lemma_dot_zero(q[i], z);
        assert(row2.drop_last() =~= row);
        assert(row2.last() == sim_val(SimilarityMode::Dot, q[i], z));
        assert(seq_max(row2) == seq_max(row));
        assert(q.last() == q[i]);
    }
}

} // verus!
