//! Scoring one document: fill a similarity matrix (in cache-friendly
//! tiles) into the reusable buffer, then reduce it to one score.

use vstd::prelude::*;
use crate::model::{
    doc_tokens, maxsim_score_s, seq_window, sim_row, sim_val, tokens_of, vals_bounded, Aggregate,
    SimilarityMode, MAX_DIM, MAX_SIM_ABS, MAX_TOKENS,
};
use crate::lemmas::lemma_sim_val_bound;
use crate::reduce::{apply_aggregate, lemma_rows_sum_is_maxsim, reduce_rows};
use crate::similarity::score_pair;

verus! {

/// Distinct in-range (row, column) pairs land on distinct flat indices.
pub proof fn lemma_flat_idx_inj(i1: int, j1: int, i2: int, j2: int, w: int)
    requires
        0 <= j1 < w,
        0 <= j2 < w,
        i1 >= 0,
        i2 >= 0,
        i1 * w + j1 == i2 * w + j2,
    ensures
        i1 == i2 && j1 == j2,
{
    assert(i1 == i2 && j1 == j2) by (nonlinear_arith)
        requires
            0 <= j1 < w,
            0 <= j2 < w,
            i1 >= 0,
            i2 >= 0,
            i1 * w + j1 == i2 * w + j2,
    ;
}

/// A flat index of an in-range pair is within the matrix.
pub proof fn lemma_flat_idx_bound(i: int, j: int, h: int, w: int)
    requires
        0 <= i < h,
        0 <= j < w,
    ensures
        0 <= i * w + j < h * w,
        i * w + j <= h * w,
{
    assert(0 <= i * w + j < h * w) by (nonlinear_arith)
        requires 0 <= i < h, 0 <= j < w,
    ;
}

/// Cell `(i, j)` of the similarity buffer holds the similarity of query
/// token `i` and the document token `j` stored at offset `doff`.
pub open spec fn cell_ok(
    simv: Seq<i64>,
    mode: SimilarityMode,
    qv: Seq<i64>,
    dv: Seq<i64>,
    doff: int,
    dim: nat,
    dn: int,
    i: int,
    j: int,
) -> bool {
    simv[i * dn + j] as int == sim_val(
        mode,
        seq_window(qv, i * (dim as int), dim),
        seq_window(dv, doff + j * (dim as int), dim),
    )
}

/// Tile width along the document axis: shrinks as the document grows so
/// a tile's working set stays cache-sized.  Affects performance only.
pub fn doc_block_size(dn: usize) -> (r: usize)
    ensures
        1 <= r <= 16,
{
    if dn <= 128 {
        16
    } else if dn <= 256 {
        12
    } else if dn <= 512 {
        8
    } else if dn <= 1024 {
        6
    } else {
        4
    }
}

/// Grow the buffer to at least `n` cells.  Buffers only ever grow; stale
/// contents beyond the prefix are never read before being overwritten.
pub fn ensure_len(buf: &mut Vec<i64>, n: usize)
    ensures
        final(buf).len() >= n,
        final(buf).len() >= old(buf).len(),
        forall|i: int| 0 <= i < old(buf).len() ==> final(buf)@[i] == old(buf)@[i],
        forall|i: int| old(buf).len() <= i < final(buf).len() ==> final(buf)@[i] == 0,
        crate::model::vals_bounded(old(buf)@) ==> crate::model::vals_bounded(final(buf)@),
{
    while buf.len() < n
        invariant
            buf.len() >= old(buf).len(),
            forall|i: int| 0 <= i < old(buf).len() ==> buf@[i] == old(buf)@[i],
            forall|i: int| old(buf).len() <= i < buf.len() ==> buf@[i] == 0,
        decreases n - buf.len(),
    {
        buf.push(0);
    }
}

/// Fill rows `0..qn` and columns `0..dn` of the similarity matrix, tiled
/// along both axes.
#[verifier::rlimit(30)]
pub fn fill_similarity_matrix(
    sim: &mut Vec<i64>,
    mode: SimilarityMode,
    q: &Vec<i64>,
    qn: usize,
    d: &Vec<i64>,
    doff: usize,
    dn: usize,
    dim: usize,
)
    requires
        qn <= MAX_TOKENS,
        dn <= MAX_TOKENS,
        dim <= MAX_DIM,
        qn * dim <= q.len(),
        doff + dn * dim <= d.len(),
        old(sim).len() >= qn * dn,
        vals_bounded(q@),
        vals_bounded(d@),
    ensures
        final(sim).len() == old(sim).len(),
        forall|x: int| qn * dn <= x < final(sim).len() ==> #[trigger] final(sim)@[x] == old(
            sim,
        )@[x],
        forall|i: int, j: int|
            0 <= i < qn && 0 <= j < dn ==> #[trigger] cell_ok(
                final(sim)@,
                mode,
                q@,
                d@,
                doff as int,
                dim as nat,
                dn as int,
                i,
                j,
            ),
{
    let dbs = doc_block_size(dn);
    let qbs: usize = 8;
    let mut qb: usize = 0;
    while qb < qn
        invariant
            0 <= qb <= qn,
            1 <= dbs <= 16,
            qbs == 8usize,
            qn <= MAX_TOKENS,
            dn <= MAX_TOKENS,
            dim <= MAX_DIM,
            qn * dim <= q.len(),
            doff + dn * dim <= d.len(),
            sim.len() >= qn * dn,
            sim.len() == old(sim).len(),
            forall|x: int| qn * dn <= x < sim.len() ==> #[trigger] sim@[x] == old(sim)@[x],
            vals_bounded(q@),
            vals_bounded(d@),
            forall|i: int, j: int|
                0 <= i < qb && 0 <= j < dn ==> #[trigger] cell_ok(
                    sim@,
                    mode,
                    q@,
                    d@,
                    doff as int,
                    dim as nat,
                    dn as int,
                    i,
                    j,
                ),
        decreases qn - qb,
    {
        let qe = if qb + qbs < qn {
            qb + qbs
        } else {
            qn
        };
        let mut db: usize = 0;
        while db < dn
            invariant
                0 <= qb < qe <= qn,
                0 <= db <= dn,
                1 <= dbs <= 16,
                qn <= MAX_TOKENS,
                dn <= MAX_TOKENS,
                dim <= MAX_DIM,
                qn * dim <= q.len(),
                doff + dn * dim <= d.len(),
                sim.len() >= qn * dn,
                sim.len() == old(sim).len(),
                forall|x: int| qn * dn <= x < sim.len() ==> #[trigger] sim@[x] == old(sim)@[x],
                vals_bounded(q@),
                vals_bounded(d@),
                forall|i: int, j: int|
                    (0 <= i < qb && 0 <= j < dn) || (qb <= i < qe && 0 <= j < db)
                        ==> #[trigger] cell_ok(
                        sim@,
                        mode,
                        q@,
                        d@,
                        doff as int,
                        dim as nat,
                        dn as int,
                        i,
                        j,
                    ),
            decreases dn - db,
        {
            let de = if db + dbs < dn {
                db + dbs
            } else {
                dn
            };
            let mut qi: usize = qb;
            while qi < qe
                invariant
                    0 <= qb <= qi <= qe <= qn,
                    0 <= db < de <= dn,
                    qn <= MAX_TOKENS,
                    dn <= MAX_TOKENS,
                    dim <= MAX_DIM,
                    qn * dim <= q.len(),
                    doff + dn * dim <= d.len(),
                    sim.len() >= qn * dn,
                    sim.len() == old(sim).len(),
                    forall|x: int| qn * dn <= x < sim.len() ==> #[trigger] sim@[x] == old(sim)@[x],
                    vals_bounded(q@),
                    vals_bounded(d@),
                    forall|i: int, j: int|
                        (0 <= i < qb && 0 <= j < dn) || (qb <= i < qe && 0 <= j < db) || (qb <= i
                            < qi && db <= j < de) ==> #[trigger] cell_ok(
                            sim@,
                            mode,
                            q@,
                            d@,
                            doff as int,
                            dim as nat,
                            dn as int,
                            i,
                            j,
                        ),
                decreases qe - qi,
            {
                let mut di: usize = db;
                while di < de
                    invariant
                        0 <= qb <= qi < qe <= qn,
                        0 <= db <= di <= de <= dn,
                        qn <= MAX_TOKENS,
                        dn <= MAX_TOKENS,
                        dim <= MAX_DIM,
                        qn * dim <= q.len(),
                        doff + dn * dim <= d.len(),
                        sim.len() >= qn * dn,
                        sim.len() == old(sim).len(),
                        forall|x: int| qn * dn <= x < sim.len() ==> #[trigger] sim@[x] == old(
                            sim,
                        )@[x],
                        vals_bounded(q@),
                        vals_bounded(d@),
                        forall|i: int, j: int|
                            (0 <= i < qb && 0 <= j < dn) || (qb <= i < qe && 0 <= j < db) || (qb
                                <= i < qi && db <= j < de) || (i == qi && db <= j < di)
                                ==> #[trigger] cell_ok(
                                sim@,
                                mode,
                                q@,
                                d@,
                                doff as int,
                                dim as nat,
                                dn as int,
                                i,
                                j,
                            ),
                    decreases de - di,
                {
                    proof {
                        lemma_flat_idx_bound(qi as int, di as int, qn as int, dn as int);
                        assert((qi as int + 1) * dim <= qn as int * dim) by (nonlinear_arith)
                            requires qi as int + 1 <= qn as int, dim as int >= 0,
                        ;
                        assert(qi as int * dim + dim == (qi as int + 1) * dim) by (nonlinear_arith);
                        assert((di as int + 1) * dim <= dn as int * dim) by (nonlinear_arith)
                            requires di as int + 1 <= dn as int, dim as int >= 0,
                        ;
                        assert(di as int * dim + dim == (di as int + 1) * dim) by (nonlinear_arith);
                    }
                    let v = score_pair(mode, q, qi * dim, d, doff + di * dim, dim);
                    let ghost pre = sim@;
                    let idx: usize = qi * dn + di;
                    sim[idx] = v;
                    proof {
                        assert forall|x: int|
                            qn * dn <= x < sim.len() implies #[trigger] sim@[x] == old(
                            sim,
                        )@[x] by {
                            assert(sim@[x] == pre[x]);
                        }
                        assert forall|i: int, j: int|
                            ((0 <= i < qb && 0 <= j < dn) || (qb <= i < qe && 0 <= j < db) || (qb
                                <= i < qi && db <= j < de) || (i == qi && db <= j < di + 1))
                                implies #[trigger] cell_ok(
                                sim@,
                                mode,
                                q@,
                                d@,
                                doff as int,
                                dim as nat,
                                dn as int,
                                i,
                                j,
                            ) by {
                            lemma_flat_idx_bound(i, j, qn as int, dn as int);
                            if i == qi as int && j == di as int {
                                assert(sim@[i * dn + j] == v);
                            } else {
                                if i * (dn as int) + j == qi as int * (dn as int) + di as int {
                                    lemma_flat_idx_inj(
                                        i,
                                        j,
                                        qi as int,
                                        di as int,
                                        dn as int,
                                    );
                                }
                                assert(sim@[i * dn + j] == pre[i * dn + j]);
                                assert(cell_ok(
                                    pre,
                                    mode,
                                    q@,
                                    d@,
                                    doff as int,
                                    dim as nat,
                                    dn as int,
                                    i,
                                    j,
                                ));
                            }
                        }
                    }
                    di = di + 1;
                }
                qi = qi + 1;
            }
            db = de;
        }
        qb = qe;
    }
}

/// MaxSim score of the query against the document stored at offset
/// `doff` of `d`, computed through the reusable similarity buffer.
pub fn compute_maxsim_score(
    sim: &mut Vec<i64>,
    mode: SimilarityMode,
    agg: Aggregate,
    q: &Vec<i64>,
    qn: usize,
    d: &Vec<i64>,
    doff: usize,
    dn: usize,
    dim: usize,
) -> (r: i64)
    requires
        qn <= MAX_TOKENS,
        dn <= MAX_TOKENS,
        dim <= MAX_DIM,
        qn * dim <= q.len(),
        doff + dn * dim <= d.len(),
        vals_bounded(q@),
        vals_bounded(d@),
    ensures
        r as int == maxsim_score_s(
            mode,
            agg,
            tokens_of(q@, qn as nat, dim as nat),
            doc_tokens(d@, doff as int, dn as nat, dim as nat),
        ),
        final(sim).len() >= old(sim).len(),
{
    let ghost qtoks = tokens_of(q@, qn as nat, dim as nat);
    let ghost dtoks = doc_tokens(d@, doff as int, dn as nat, dim as nat);
    if qn == 0 || dn == 0 {
        proof {
            if qn > 0 {
                assert(0int / (qn as int) == 0) by (nonlinear_arith)
                    requires qn as int >= 1,
                ;
            }
        }
        return 0;
    }
    proof {
        assert(qn * dn <= MAX_TOKENS * MAX_TOKENS) by (nonlinear_arith)
            requires qn <= MAX_TOKENS, dn <= MAX_TOKENS, qn >= 0, dn >= 0,
        ;
    }
    let need: usize = qn * dn;
    ensure_len(sim, need);
    fill_similarity_matrix(sim, mode, q, qn, d, doff, dn, dim);
    proof {
        assert forall|i: int, j: int| 0 <= i < qn && 0 <= j < dn implies -MAX_SIM_ABS
            <= #[trigger] sim@[i * (dn as int) + j] <= MAX_SIM_ABS by {
            assert(cell_ok(sim@, mode, q@, d@, doff as int, dim as nat, dn as int, i, j));
            assert(0 <= i * (dim as int) && (i + 1) * dim <= qn * dim && i * (dim as int) + dim
                == (i + 1) * dim) by (nonlinear_arith)
                requires 0 <= i < qn as int, dim as int >= 0, qn as int >= 0,
            ;
            assert(0 <= j * (dim as int) && (j + 1) * dim <= dn * dim && j * (dim as int) + dim
                == (j + 1) * dim) by (nonlinear_arith)
                requires 0 <= j < dn as int, dim as int >= 0, dn as int >= 0,
            ;
            crate::lemmas::lemma_window_bounded(q@, i * (dim as int), dim as nat);
            crate::lemmas::lemma_window_bounded(d@, doff + j * (dim as int), dim as nat);
            lemma_sim_val_bound(
                mode,
                seq_window(q@, i * (dim as int), dim as nat),
                seq_window(d@, doff + j * (dim as int), dim as nat),
            );
        }
        assert((qn - 1) * (dn as int) + 0 + dn <= qn * dn) by (nonlinear_arith)
            requires qn >= 1, dn >= 1,
        ;
    }
    let sum = reduce_rows(sim, qn, dn, 0, dn);
    proof {
        assert forall|i: int| 0 <= i < qtoks.len() implies seq_window(
            sim@,
            i * (dn as int) + 0,
            dtoks.len(),
        ) == #[trigger] sim_row(mode, qtoks[i], dtoks) by {
            let w = seq_window(sim@, i * (dn as int), dn as nat);
            let row = sim_row(mode, qtoks[i], dtoks);
            assert forall|j: int| 0 <= j < dn implies w[j] == row[j] by {
                assert(cell_ok(sim@, mode, q@, d@, doff as int, dim as nat, dn as int, i, j));
            }
            assert(w =~= row);
        }
        lemma_rows_sum_is_maxsim(sim@, dn as int, 0, mode, qtoks, dtoks);
    }
    apply_aggregate(sum, qn, agg)
}

} // verus!
