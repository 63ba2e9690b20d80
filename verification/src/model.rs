//! Mathematical model of MaxSim scoring.
//!
//! Flat embedding buffers are modelled as `Seq<i64>`; a token is a window
//! of `dim` consecutive components, read as unbounded integers.  The spec
//! functions here define the exact value of every similarity, row maximum
//! and score; the executable engine is proved to return these values.

use vstd::prelude::*;

verus! {

/// Largest magnitude an embedding component may have.  With components in
/// `[-MAX_ABS_VALUE, MAX_ABS_VALUE]` and the dimension capped below, every
/// dot product and score provably fits in `i64`.
pub const MAX_ABS_VALUE: i64 = 65536;

/// Largest supported embedding dimension.  Together with the component
/// cap this keeps every dot product within `MAX_SIM_ABS`.
pub const MAX_DIM: usize = 4096;

/// Largest supported number of tokens in one query or one document.
/// Together with the similarity cap this keeps every score within
/// `MAX_SCORE_ABS`, and every buffer index within `usize` range.
pub const MAX_TOKENS: usize = 8192;

/// Fixed-point unit for cosine similarities: a cosine of exactly 1.0 is
/// reported as `SIM_SCALE`.
pub const SIM_SCALE: i64 = 65536;

/// Upper bound on the magnitude of any similarity value:
/// `MAX_DIM * MAX_ABS_VALUE * MAX_ABS_VALUE`.
pub const MAX_SIM_ABS: i64 = 17592186044416;

/// Upper bound on the magnitude of any score:
/// `MAX_TOKENS * MAX_SIM_ABS`.
pub const MAX_SCORE_ABS: i64 = 144115188075855872;

/// How one query token is compared with one document token.
#[derive(Clone, Copy, Debug, PartialEq, Eq, Structural)]
pub enum SimilarityMode {
    /// Plain dot product; assumes the caller's embeddings are already
    /// L2-normalized, in which case it equals cosine similarity.
    Dot,
    /// Dot product divided by the product of the vectors' norms, in
    /// `SIM_SCALE` fixed point; `0` if either norm is zero.
    Cosine,
}

/// How the per-query-token row maxima are aggregated into one score.
#[derive(Clone, Copy, Debug, PartialEq, Eq, Structural)]
pub enum Aggregate {
    /// Raw sum of the row maxima: for ranking within one query.
    Sum,
    /// Sum divided by the query length: comparable across queries.
    Mean,
}

/// The `n` components starting at `off`, as integers.
pub open spec fn seq_window(s: Seq<i64>, off: int, n: nat) -> Seq<int> {
    Seq::new(n, |k: int| s[off + k] as int)
}

/// The `len` tokens of `dim` components each stored at offset `off`.
pub open spec fn doc_tokens(flat: Seq<i64>, off: int, len: nat, dim: nat) -> Seq<Seq<int>> {
    Seq::new(len, |t: int| seq_window(flat, off + t * (dim as int), dim))
}

/// The tokens of a buffer that starts at its first component.
pub open spec fn tokens_of(flat: Seq<i64>, len: nat, dim: nat) -> Seq<Seq<int>> {
    doc_tokens(flat, 0, len, dim)
}

/// Exact dot product of two equal-length integer vectors.
pub open spec fn dot_s(a: Seq<int>, b: Seq<int>) -> int
    decreases a.len(),
{
    if a.len() == 0 {
        0
    } else {
        dot_s(a.drop_last(), b.drop_last()) + a.last() * b.last()
    }
}

/// Floor of the square root.
pub open spec fn isqrt_s(n: nat) -> nat
    decreases n,
{
    if n == 0 {
        0
    } else {
        let r = isqrt_s((n - 1) as nat);
        if (r + 1) * (r + 1) <= n {
            r + 1
        } else {
            r
        }
    }
}

/// Division truncating toward zero, as Rust's integer `/` does.
pub open spec fn tdiv(a: int, b: int) -> int {
    if a >= 0 {
        a / b
    } else {
        -((-a) / b)
    }
}

/// Clamp a fixed-point cosine value to `[-SIM_SCALE, SIM_SCALE]`.
pub open spec fn clamp_sim(x: int) -> int {
    if x > SIM_SCALE {
        SIM_SCALE as int
    } else if x < -(SIM_SCALE as int) {
        -(SIM_SCALE as int)
    } else {
        x
    }
}

/// Similarity between one query token and one document token.
pub open spec fn sim_val(mode: SimilarityMode, a: Seq<int>, b: Seq<int>) -> int {
    match mode {
        SimilarityMode::Dot => dot_s(a, b),
        SimilarityMode::Cosine => {
            let d = dot_s(a, b);
            let na2 = dot_s(a, a);
            let nb2 = dot_s(b, b);
            if na2 == 0 || nb2 == 0 {
                0
            } else {
                clamp_sim(
                    tdiv(
                        d * (SIM_SCALE as int),
                        (isqrt_s(na2 as nat) * isqrt_s(nb2 as nat)) as int,
                    ),
                )
            }
        },
    }
}

/// One row of the similarity matrix: the query token `q` against every
/// document token.
pub open spec fn sim_row(mode: SimilarityMode, q: Seq<int>, d: Seq<Seq<int>>) -> Seq<int> {
    Seq::new(d.len(), |j: int| sim_val(mode, q, d[j]))
}

/// Maximum of a sequence of integers (`0` for the empty sequence, which
/// scoring never produces).
pub open spec fn seq_max(s: Seq<int>) -> int
    decreases s.len(),
{
    if s.len() == 0 {
        0
    } else if s.len() == 1 {
        s[0]
    } else {
        let m = seq_max(s.drop_last());
        if s.last() > m {
            s.last()
        } else {
            m
        }
    }
}

/// Sum over the query tokens of the row maxima; `0` as soon as either
/// side has no tokens.
pub open spec fn maxsim_sum(mode: SimilarityMode, q: Seq<Seq<int>>, d: Seq<Seq<int>>) -> int
    decreases q.len(),
{
    if q.len() == 0 || d.len() == 0 {
        0
    } else {
        maxsim_sum(mode, q.drop_last(), d) + seq_max(sim_row(mode, q.last(), d))
    }
}

/// The MaxSim score of a query against one document.
pub open spec fn maxsim_score_s(
    mode: SimilarityMode,
    agg: Aggregate,
    q: Seq<Seq<int>>,
    d: Seq<Seq<int>>,
) -> int {
    let s = maxsim_sum(mode, q, d);
    match agg {
        Aggregate::Sum => s,
        Aggregate::Mean => if q.len() == 0 {
            0
        } else {
            tdiv(s, q.len() as int)
        },
    }
}

/// Score of a single flat query buffer against a single flat document
/// buffer.
pub open spec fn single_score_s(
    mode: SimilarityMode,
    agg: Aggregate,
    qflat: Seq<i64>,
    qlen: nat,
    dflat: Seq<i64>,
    dlen: nat,
    dim: nat,
) -> int {
    maxsim_score_s(mode, agg, tokens_of(qflat, qlen, dim), tokens_of(dflat, dlen, dim))
}

/// Offset, in components, of document `i` inside a flat collection whose
/// per-document token counts are `dlens`.
pub open spec fn offset_of(dlens: Seq<usize>, dim: nat, i: int) -> int
    decreases i,
{
    if i <= 0 {
        0
    } else {
        offset_of(dlens, dim, i - 1) + dlens[i - 1] * dim
    }
}

/// Total number of components a collection occupies.
pub open spec fn total_size_s(dlens: Seq<usize>, dim: nat) -> int {
    offset_of(dlens, dim, dlens.len() as int)
}

/// Score of document `i` of a flat collection, in original order.
pub open spec fn batch_doc_score_s(
    mode: SimilarityMode,
    agg: Aggregate,
    qflat: Seq<i64>,
    qlen: nat,
    dflat: Seq<i64>,
    dlens: Seq<usize>,
    dim: nat,
    i: int,
) -> int {
    maxsim_score_s(
        mode,
        agg,
        tokens_of(qflat, qlen, dim),
        doc_tokens(dflat, offset_of(dlens, dim, i), dlens[i] as nat, dim),
    )
}

/// Every component of the buffer is within the model's magnitude cap.
pub open spec fn vals_bounded(s: Seq<i64>) -> bool {
    forall|i: int| 0 <= i < s.len() ==> -MAX_ABS_VALUE <= #[trigger] s[i] <= MAX_ABS_VALUE
}

/// Every document length is within the model's token cap.
pub open spec fn lens_bounded(dlens: Seq<usize>) -> bool {
    forall|i: int| 0 <= i < dlens.len() ==> #[trigger] dlens[i] <= MAX_TOKENS
}

} // verus!
