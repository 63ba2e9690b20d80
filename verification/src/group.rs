//! Grouped scoring: stage several documents of one length-homogeneous
//! group into the reusable batch buffer (zero-padding each up to the
//! group maximum), compute one combined similarity tensor, and reduce
//! each document over its true token prefix only — so padding can never
//! win a row maximum.

use vstd::prelude::*;
use crate::model::{
    batch_doc_score_s, doc_tokens, lens_bounded, maxsim_score_s, offset_of, seq_window, sim_row,
    sim_val, tokens_of, total_size_s, vals_bounded, Aggregate, SimilarityMode, MAX_DIM,
    MAX_SIM_ABS, MAX_TOKENS,
};
use crate::lemmas::{
    lemma_doc_tokens_eq, lemma_offset_mono, lemma_sim_val_bound, lemma_window_bounded,
};
use crate::batch::{copy_region, zero_region};
use crate::reduce::{apply_aggregate, lemma_rows_sum_is_maxsim, reduce_rows};
use crate::score::{compute_maxsim_score, ensure_len, lemma_flat_idx_bound, lemma_flat_idx_inj};
use crate::similarity::score_pair;

verus! {

/// The collection invariant every batched path carries: `offs` are the
/// prefix-sum offsets of `dlens`, and the flat buffer has exactly the
/// declared size with bounded components.
pub open spec fn coll_ok(dflat: Seq<i64>, dlens: Seq<usize>, offs: Seq<usize>, dim: nat) -> bool {
    &&& offs.len() == dlens.len()
    &&& forall|i: int|
        0 <= i < dlens.len() ==> #[trigger] offs[i] as int == offset_of(dlens, dim, i)
    &&& dflat.len() == total_size_s(dlens, dim)
    &&& lens_bounded(dlens)
    &&& vals_bounded(dflat)
}

/// Document `gp` of the sub-batch is staged at `gp * ds`: its true
/// components match the flat buffer.
pub open spec fn staged_doc_ok(
    stage: Seq<i64>,
    ds: int,
    dflat: Seq<i64>,
    dlens: Seq<usize>,
    offs: Seq<usize>,
    order: Seq<usize>,
    s: int,
    gp: int,
    dim: nat,
) -> bool {
    forall|x: int|
        0 <= x < dlens[order[s + gp] as int] * dim ==> #[trigger] stage[gp * ds + x] == dflat[offs[order[s
            + gp] as int] as int + x]
}

/// Cell `(i, g, t)` of the combined tensor holds the similarity of query
/// token `i` and staged token `t` of sub-batch document `g`.
pub open spec fn tensor_cell_ok(
    simv: Seq<i64>,
    mode: SimilarityMode,
    qv: Seq<i64>,
    stage: Seq<i64>,
    rs: int,
    ml: int,
    ds: int,
    dim: nat,
    i: int,
    g: int,
    t: int,
) -> bool {
    simv[i * rs + g * ml + t] as int == sim_val(
        mode,
        seq_window(qv, i * (dim as int), dim),
        seq_window(stage, g * ds + t * (dim as int), dim),
    )
}

/// Fill the combined similarity tensor for one staged sub-batch: row
/// stride `rs = bs * ml`, document stride `ds = ml * dim`; only each
/// document's true token prefix is computed.
#[verifier::rlimit(40)]
pub fn fill_batch_tensor(
    sim: &mut Vec<i64>,
    mode: SimilarityMode,
    q: &Vec<i64>,
    qn: usize,
    stage: &Vec<i64>,
    bs: usize,
    ml: usize,
    rs: usize,
    ds: usize,
    dim: usize,
    dlens: &Vec<usize>,
    order: &Vec<usize>,
    s: usize,
)
    requires
        rs == bs * ml,
        ds == ml * dim,
        1 <= qn <= MAX_TOKENS,
        1 <= bs <= 16,
        1 <= ml <= MAX_TOKENS,
        dim <= MAX_DIM,
        qn * dim <= q.len(),
        s + bs <= order.len(),
        forall|p: int| 0 <= p < order.len() ==> (#[trigger] order@[p] as int) < dlens.len(),
        forall|g: int| 0 <= g < bs ==> #[trigger] dlens@[order@[s + g] as int] <= ml,
        bs * ds <= stage.len(),
        old(sim).len() >= qn * rs,
        vals_bounded(q@),
        vals_bounded(stage@),
    ensures
        final(sim).len() == old(sim).len(),
        forall|x: int| qn * rs <= x < final(sim).len() ==> #[trigger] final(sim)@[x] == old(
            sim,
        )@[x],
        forall|i: int, g: int, t: int|
            0 <= i < qn && 0 <= g < bs && 0 <= t < dlens@[order@[s + g] as int]
                ==> #[trigger] tensor_cell_ok(
                final(sim)@,
                mode,
                q@,
                stage@,
                rs as int,
                ml as int,
                ds as int,
                dim as nat,
                i,
                g,
                t,
            ),
{
    let mut i: usize = 0;
    while i < qn
        invariant
            0 <= i <= qn,
            rs == bs * ml,
            ds == ml * dim,
            1 <= qn <= MAX_TOKENS,
            1 <= bs <= 16,
            1 <= ml <= MAX_TOKENS,
            dim <= MAX_DIM,
            qn * dim <= q.len(),
            s + bs <= order.len(),
            forall|p: int| 0 <= p < order.len() ==> (#[trigger] order@[p] as int) < dlens.len(),
            forall|g: int| 0 <= g < bs ==> #[trigger] dlens@[order@[s + g] as int] <= ml,
            bs * ds <= stage.len(),
            sim.len() >= qn * rs,
            sim.len() == old(sim).len(),
            forall|x: int| qn * rs <= x < sim.len() ==> #[trigger] sim@[x] == old(sim)@[x],
            vals_bounded(q@),
            vals_bounded(stage@),
            forall|ip: int, g: int, t: int|
                0 <= ip < i && 0 <= g < bs && 0 <= t < dlens@[order@[s + g] as int]
                    ==> #[trigger] tensor_cell_ok(
                    sim@,
                    mode,
                    q@,
                    stage@,
                    rs as int,
                    ml as int,
                    ds as int,
                    dim as nat,
                    ip,
                    g,
                    t,
                ),
        decreases qn - i,
    {
        let mut g: usize = 0;
        while g < bs
            invariant
                0 <= i < qn,
                0 <= g <= bs,
                rs == bs * ml,
                ds == ml * dim,
                1 <= qn <= MAX_TOKENS,
                1 <= bs <= 16,
                1 <= ml <= MAX_TOKENS,
                dim <= MAX_DIM,
                qn * dim <= q.len(),
                s + bs <= order.len(),
                forall|p: int| 0 <= p < order.len() ==> (#[trigger] order@[p] as int) < dlens.len(),
                forall|gp: int| 0 <= gp < bs ==> #[trigger] dlens@[order@[s + gp] as int] <= ml,
                bs * ds <= stage.len(),
                sim.len() >= qn * rs,
                sim.len() == old(sim).len(),
                forall|x: int| qn * rs <= x < sim.len() ==> #[trigger] sim@[x] == old(sim)@[x],
                vals_bounded(q@),
                vals_bounded(stage@),
                forall|ip: int, gp: int, t: int|
                    (0 <= ip < i && 0 <= gp < bs && 0 <= t < dlens@[order@[s + gp] as int]) || (ip
                        == i && 0 <= gp < g && 0 <= t < dlens@[order@[s + gp] as int])
                        ==> #[trigger] tensor_cell_ok(
                        sim@,
                        mode,
                        q@,
                        stage@,
                        rs as int,
                        ml as int,
                        ds as int,
                        dim as nat,
                        ip,
                        gp,
                        t,
                    ),
            decreases bs - g,
        {
            let dn = dlens[order[s + g]];
            let mut t: usize = 0;
            while t < dn
                invariant
                    0 <= i < qn,
                    0 <= g < bs,
                    0 <= t <= dn,
                    dn == dlens@[order@[s + g] as int],
                    dn <= ml,
                    rs == bs * ml,
                    ds == ml * dim,
                    1 <= qn <= MAX_TOKENS,
                    1 <= bs <= 16,
                    1 <= ml <= MAX_TOKENS,
                    dim <= MAX_DIM,
                    qn * dim <= q.len(),
                    s + bs <= order.len(),
                    forall|p: int|
                        0 <= p < order.len() ==> (#[trigger] order@[p] as int) < dlens.len(),
                    forall|gp: int| 0 <= gp < bs ==> #[trigger] dlens@[order@[s + gp] as int] <= ml,
                    bs * ds <= stage.len(),
                    sim.len() >= qn * rs,
                    sim.len() == old(sim).len(),
                    forall|x: int| qn * rs <= x < sim.len() ==> #[trigger] sim@[x] == old(sim)@[x],
                    vals_bounded(q@),
                    vals_bounded(stage@),
                    forall|ip: int, gp: int, tp: int|
                        (0 <= ip < i && 0 <= gp < bs && 0 <= tp < dlens@[order@[s + gp] as int])
                            || (ip == i && 0 <= gp < g && 0 <= tp < dlens@[order@[s + gp] as int])
                            || (ip == i && gp == g && 0 <= tp < t) ==> #[trigger] tensor_cell_ok(
                            sim@,
                            mode,
                            q@,
                            stage@,
                            rs as int,
                            ml as int,
                            ds as int,
                            dim as nat,
                            ip,
                            gp,
                            tp,
                        ),
                decreases dn - t,
            {
                proof {
                    assert((i as int + 1) * dim <= qn * dim && i as int * dim + dim == (i as int
                        + 1) * dim) by (nonlinear_arith)
                        requires 0 <= i as int, i as int + 1 <= qn as int, dim as int >= 0,
                    ;
                    assert((t as int + 1) * dim <= ml * dim && t as int * dim + dim == (t as int
                        + 1) * dim) by (nonlinear_arith)
                        requires 0 <= t as int, t as int + 1 <= ml as int, dim as int >= 0,
                    ;
                    assert((g as int + 1) * ds <= bs * ds && g as int * ds + ds == (g as int + 1)
                        * ds) by (nonlinear_arith)
                        requires 0 <= g as int, g as int + 1 <= bs as int, ds as int >= 0,
                    ;
                    assert(0 <= g as int * ml + t && g as int * ml + t < rs) by (nonlinear_arith)
                        requires
                            0 <= g as int,
                            g as int + 1 <= bs as int,
                            0 <= t as int,
                            t as int + 1 <= ml as int,
                            rs == bs as int * ml,
                    ;
                    lemma_flat_idx_bound(i as int, g as int * ml + t, qn as int, rs as int);
                }
                let v = score_pair(mode, q, i * dim, stage, g * ds + t * dim, dim);
                let ghost pre = sim@;
                let idx: usize = i * rs + g * ml + t;
                sim[idx] = v;
                proof {
                    assert forall|x: int|
                        qn * rs <= x < sim.len() implies #[trigger] sim@[x] == old(sim)@[x] by {
                        assert(sim@[x] == pre[x]);
                    }
                    assert forall|ip: int, gp: int, tp: int|
                        ((0 <= ip < i && 0 <= gp < bs && 0 <= tp < dlens@[order@[s + gp] as int])
                            || (ip == i && 0 <= gp < g && 0 <= tp < dlens@[order@[s + gp] as int])
                            || (ip == i && gp == g && 0 <= tp < t + 1)) implies #[trigger] tensor_cell_ok(
                        sim@,
                        mode,
                        q@,
                        stage@,
                        rs as int,
                        ml as int,
                        ds as int,
                        dim as nat,
                        ip,
                        gp,
                        tp,
                    ) by {
                        assert(dlens@[order@[s + gp] as int] <= ml);
                        assert(0 <= gp * (ml as int) + tp < rs) by (nonlinear_arith)
                            requires
                                0 <= gp < bs as int,
                                0 <= tp, tp < ml as int,
                                rs == bs as int * ml,
                        ;
                        lemma_flat_idx_bound(ip, gp * (ml as int) + tp, qn as int, rs as int);
                        if ip == i as int && gp == g as int && tp == t as int {
                            assert(sim@[ip * (rs as int) + gp * (ml as int) + tp] == v);
                        } else {
                            if ip * (rs as int) + gp * (ml as int) + tp == i as int * (rs as int)
                                + g as int * (ml as int) + t as int {
                                lemma_flat_idx_inj(
                                    ip,
                                    gp * (ml as int) + tp,
                                    i as int,
                                    g as int * (ml as int) + t as int,
                                    rs as int,
                                );
                                lemma_flat_idx_inj(gp, tp, g as int, t as int, ml as int);
                            }
                            assert(sim@[ip * (rs as int) + gp * (ml as int) + tp] == pre[ip * (
                            rs as int) + gp * (ml as int) + tp]);
                            assert(tensor_cell_ok(
                                pre,
                                mode,
                                q@,
                                stage@,
                                rs as int,
                                ml as int,
                                ds as int,
                                dim as nat,
                                ip,
                                gp,
                                tp,
                            ));
                        }
                    }
                }
                t = t + 1;
            }
            g = g + 1;
        }
        i = i + 1;
    }
}

/// Score one staged sub-batch of at most 16 documents: copy each into
/// the batch buffer padded with zeros up to `ml` tokens, compute the
/// combined similarity tensor, reduce every document over its true token
/// prefix, and write each score at its original index.
#[verifier::rlimit(60)]
pub fn process_subgroup(
    sim: &mut Vec<i64>,
    stage: &mut Vec<i64>,
    mode: SimilarityMode,
    agg: Aggregate,
    q: &Vec<i64>,
    qn: usize,
    dflat: &Vec<i64>,
    dlens: &Vec<usize>,
    offs: &Vec<usize>,
    order: &Vec<usize>,
    s: usize,
    e: usize,
    ml: usize,
    dim: usize,
    scores: &mut Vec<i64>,
)
    requires
        1 <= qn <= MAX_TOKENS,
        dim <= MAX_DIM,
        qn * dim <= q.len(),
        s < e <= order.len(),
        e - s <= 16,
        order.len() == dlens.len(),
        old(scores).len() == dlens.len(),
        forall|p: int| 0 <= p < order.len() ==> (#[trigger] order@[p] as int) < dlens.len(),
        coll_ok(dflat@, dlens@, offs@, dim as nat),
        1 <= ml <= MAX_TOKENS,
        forall|p: int| s <= p < e ==> 1 <= #[trigger] dlens@[order@[p] as int] <= ml,
        vals_bounded(q@),
        vals_bounded(old(stage)@),
    ensures
        final(scores).len() == old(scores).len(),
        forall|p: int|
            s <= p < e ==> #[trigger] final(scores)@[order@[p] as int] as int == batch_doc_score_s(
                mode,
                agg,
                q@,
                qn as nat,
                dflat@,
                dlens@,
                dim as nat,
                order@[p] as int,
            ),
        forall|k: int|
            0 <= k < old(scores).len() && (forall|p: int|
                s <= p < e ==> (#[trigger] order@[p] as int) != k) ==> #[trigger] final(scores)@[k] == old(scores)@[k],
        vals_bounded(final(stage)@),
        final(sim).len() >= old(sim).len(),
        final(stage).len() >= old(stage).len(),
{
    let bs = e - s;
    proof {
        assert(ml * dim <= MAX_TOKENS * MAX_DIM) by (nonlinear_arith)
            requires 1 <= ml as int <= MAX_TOKENS as int, 0 <= dim as int <= MAX_DIM as int,
        ;
        assert(bs * (ml * dim) <= 16 * (MAX_TOKENS * MAX_DIM)) by (nonlinear_arith)
            requires 1 <= bs as int <= 16, 0 <= ml as int * dim <= MAX_TOKENS as int * MAX_DIM,
        ;
    }
    let ds: usize = ml * dim;
    let stage_need: usize = bs * ds;
    ensure_len(stage, stage_need);
    let mut g: usize = 0;
    while g < bs
        invariant
            0 <= g <= bs,
            1 <= bs <= 16,
            bs == e - s,
            s < e <= order.len(),
            ds == ml * dim,
            1 <= ml <= MAX_TOKENS,
            dim <= MAX_DIM,
            order.len() == dlens.len(),
            forall|p: int| 0 <= p < order.len() ==> (#[trigger] order@[p] as int) < dlens.len(),
            coll_ok(dflat@, dlens@, offs@, dim as nat),
            forall|p: int| s <= p < e ==> 1 <= #[trigger] dlens@[order@[p] as int] <= ml,
            stage.len() >= bs * ds,
            stage.len() >= old(stage).len(),
            vals_bounded(stage@),
            forall|gp: int|
                0 <= gp < g ==> #[trigger] staged_doc_ok(
                    stage@,
                    ds as int,
                    dflat@,
                    dlens@,
                    offs@,
                    order@,
                    s as int,
                    gp,
                    dim as nat,
                ),
        decreases bs - g,
    {
        let k = order[s + g];
        let len = dlens[k];
        let off = offs[k];
        proof {
            assert(offs@[k as int] as int == offset_of(dlens@, dim as nat, k as int));
            lemma_offset_mono(dlens@, dim as nat, k as int + 1, dlens.len() as int);
            assert(offset_of(dlens@, dim as nat, k as int + 1) == offs@[k as int] + dlens@[k as int]
                * dim);
            assert(len * dim <= ds) by (nonlinear_arith)
                requires len as int <= ml as int, dim as int >= 0, ds as int == ml as int * dim,
            ;
            assert((g as int + 1) * ds <= bs as int * ds && g as int * ds + ds == (g as int + 1)
                * ds) by (nonlinear_arith)
                requires 0 <= g as int, g as int + 1 <= bs as int, ds as int >= 0,
            ;
        }
        let dst: usize = g * ds;
        let csize: usize = len * dim;
        let ghost pre = stage@;
        copy_region(stage, dst, dflat, off, csize);
        let ghost mid = stage@;
        zero_region(stage, dst + csize, ds - csize);
        proof {
            assert forall|gp: int|
                0 <= gp < g + 1 implies #[trigger] staged_doc_ok(
                stage@,
                ds as int,
                dflat@,
                dlens@,
                offs@,
                order@,
                s as int,
                gp,
                dim as nat,
            ) by {
                if gp == g as int {
                    assert forall|x: int|
                        0 <= x < dlens@[order@[s + gp] as int] * dim implies #[trigger] stage@[gp
                        * (ds as int) + x] == dflat@[offs@[order@[s + gp] as int] as int + x] by {
                        assert(mid[dst + x] == dflat@[off + x]);
                        assert(stage@[dst + x] == mid[dst + x]);
                    }
                } else {
                    assert(staged_doc_ok(
                        pre,
                        ds as int,
                        dflat@,
                        dlens@,
                        offs@,
                        order@,
                        s as int,
                        gp,
                        dim as nat,
                    ));
                    assert forall|x: int|
                        0 <= x < dlens@[order@[s + gp] as int] * dim implies #[trigger] stage@[gp
                        * (ds as int) + x] == dflat@[offs@[order@[s + gp] as int] as int + x] by {
                        assert(dlens@[order@[s + gp] as int] * dim <= ds) by (nonlinear_arith)
                            requires
                                dlens@[order@[s + gp] as int] <= ml as int,
                                dim as int >= 0,
                                ds as int == ml as int * dim,
                        ;
                        assert(0 <= gp * (ds as int) + x && gp * (ds as int) + x < g as int * (
                        ds as int)) by (nonlinear_arith)
                            requires
                                0 <= gp,
                                gp + 1 <= g as int,
                                0 <= x,
                                x < ds as int,
                        ;
                        assert(mid[gp * (ds as int) + x] == pre[gp * (ds as int) + x]);
                        assert(stage@[gp * (ds as int) + x] == mid[gp * (ds as int) + x]);
                    }
                }
            }
        }
        g = g + 1;
    }
    proof {
        assert(bs * ml <= 16 * MAX_TOKENS) by (nonlinear_arith)
            requires 1 <= bs as int <= 16, 1 <= ml as int <= MAX_TOKENS as int,
        ;
        assert(qn * (bs * ml) <= MAX_TOKENS * (16 * MAX_TOKENS)) by (nonlinear_arith)
            requires 1 <= qn as int <= MAX_TOKENS as int, 0 <= bs as int * ml <= 16 * MAX_TOKENS as int,
        ;
    }
    let rs: usize = bs * ml;
    let sim_need: usize = qn * rs;
    ensure_len(sim, sim_need);
    fill_batch_tensor(sim, mode, q, qn, stage, bs, ml, rs, ds, dim, dlens, order, s);
    let mut g: usize = 0;
    while g < bs
        invariant
            0 <= g <= bs,
            1 <= bs <= 16,
            bs == e - s,
            s < e <= order.len(),
            ds == ml * dim,
            rs == bs * ml,
            1 <= ml <= MAX_TOKENS,
            1 <= qn <= MAX_TOKENS,
            dim <= MAX_DIM,
            qn * dim <= q.len(),
            order.len() == dlens.len(),
            scores.len() == old(scores).len(),
            old(scores).len() == dlens.len(),
            forall|p: int| 0 <= p < order.len() ==> (#[trigger] order@[p] as int) < dlens.len(),
            coll_ok(dflat@, dlens@, offs@, dim as nat),
            forall|p: int| s <= p < e ==> 1 <= #[trigger] dlens@[order@[p] as int] <= ml,
            stage.len() >= bs * ds,
            stage.len() >= old(stage).len(),
            sim.len() >= qn * rs,
            sim.len() >= old(sim).len(),
            vals_bounded(q@),
            vals_bounded(stage@),
            forall|gp: int|
                0 <= gp < bs ==> #[trigger] staged_doc_ok(
                    stage@,
                    ds as int,
                    dflat@,
                    dlens@,
                    offs@,
                    order@,
                    s as int,
                    gp,
                    dim as nat,
                ),
            forall|i: int, gp: int, t: int|
                0 <= i < qn && 0 <= gp < bs && 0 <= t < dlens@[order@[s + gp] as int]
                    ==> #[trigger] tensor_cell_ok(
                    sim@,
                    mode,
                    q@,
                    stage@,
                    rs as int,
                    ml as int,
                    ds as int,
                    dim as nat,
                    i,
                    gp,
                    t,
                ),
            forall|p: int|
                s <= p < s + g ==> #[trigger] scores@[order@[p] as int] as int
                    == batch_doc_score_s(
                    mode,
                    agg,
                    q@,
                    qn as nat,
                    dflat@,
                    dlens@,
                    dim as nat,
                    order@[p] as int,
                ),
            forall|k: int|
                0 <= k < dlens.len() && (forall|p: int|
                    s <= p < e ==> (#[trigger] order@[p] as int) != k) ==> #[trigger] scores@[k]
                    == old(scores)@[k],
        decreases bs - g,
    {
        let k = order[s + g];
        let len = dlens[k];
        proof {
            assert(0 <= g as int * (ml as int) && g as int * (ml as int) <= 16 * MAX_TOKENS)
                by (nonlinear_arith)
                requires 0 <= g as int <= 16, 0 <= ml as int <= MAX_TOKENS as int,
            ;
        }
        let col: usize = g * ml;
        proof {
            assert forall|i: int, j: int|
                0 <= i < qn && 0 <= j < len implies -MAX_SIM_ABS <= #[trigger] sim@[i * (rs as int)
                + col + j] <= MAX_SIM_ABS by {
                assert(col as int == g as int * (ml as int));
                assert(tensor_cell_ok(
                    sim@,
                    mode,
                    q@,
                    stage@,
                    rs as int,
                    ml as int,
                    ds as int,
                    dim as nat,
                    i,
                    g as int,
                    j,
                ));
                assert(0 <= i * (dim as int) && (i + 1) * dim <= qn * dim && i * (dim as int) + dim
                    == (i + 1) * dim) by (nonlinear_arith)
                    requires 0 <= i, i + 1 <= qn as int, dim as int >= 0, qn as int >= 0,
                ;
                assert(0 <= g as int * (ds as int) + j * (dim as int) && g as int * (ds as int) + (
                j + 1) * dim <= bs as int * (ds as int) && g as int * (ds as int) + j * (dim as int)
                    + dim == g as int * (ds as int) + (j + 1) * dim) by (nonlinear_arith)
                    requires
                        0 <= g as int,
                        g as int + 1 <= bs as int,
                        0 <= j,
                        j + 1 <= ml as int,
                        dim as int >= 0,
                        ds as int == ml as int * dim,
                ;
                lemma_window_bounded(q@, i * (dim as int), dim as nat);
                lemma_window_bounded(stage@, g as int * (ds as int) + j * (dim as int), dim as nat);
                lemma_sim_val_bound(
                    mode,
                    seq_window(q@, i * (dim as int), dim as nat),
                    seq_window(stage@, g as int * (ds as int) + j * (dim as int), dim as nat),
                );
            }
            assert((qn - 1) * (rs as int) + col + len <= qn * rs) by (nonlinear_arith)
                requires
                    1 <= qn as int,
                    col as int == g as int * (ml as int),
                    g as int + 1 <= bs as int,
                    0 <= len as int,
                    len as int <= ml as int,
                    rs as int == bs as int * (ml as int),
                    1 <= ml as int,
            ;
        }
        let sum = reduce_rows(sim, qn, rs, col, len);
        let ghost qtoks = tokens_of(q@, qn as nat, dim as nat);
        let ghost off_k = offs@[k as int] as int;
        let ghost dtoks = doc_tokens(dflat@, off_k, len as nat, dim as nat);
        proof {
            assert(staged_doc_ok(
                stage@,
                ds as int,
                dflat@,
                dlens@,
                offs@,
                order@,
                s as int,
                g as int,
                dim as nat,
            ));
            lemma_doc_tokens_eq(
                stage@,
                g as int * (ds as int),
                dflat@,
                off_k,
                len as nat,
                dim as nat,
            );
            let stoks = doc_tokens(stage@, g as int * (ds as int), len as nat, dim as nat);
            assert(stoks == dtoks);
            assert forall|i: int|
                0 <= i < qtoks.len() implies seq_window(sim@, i * (rs as int) + col, dtoks.len())
                == #[trigger] sim_row(mode, qtoks[i], dtoks) by {
                let w = seq_window(sim@, i * (rs as int) + col, len as nat);
                let row = sim_row(mode, qtoks[i], dtoks);
                assert forall|j: int| 0 <= j < len implies w[j] == row[j] by {
                    assert(tensor_cell_ok(
                        sim@,
                        mode,
                        q@,
                        stage@,
                        rs as int,
                        ml as int,
                        ds as int,
                        dim as nat,
                        i,
                        g as int,
                        j,
                    ));
                    assert(dtoks[j] == stoks[j]);
                    assert(stoks[j] == seq_window(
                        stage@,
                        g as int * (ds as int) + j * (dim as int),
                        dim as nat,
                    ));
                    assert(qtoks[i] == seq_window(q@, i * (dim as int), dim as nat));
                }
                assert(w =~= row);
            }
            lemma_rows_sum_is_maxsim(sim@, rs as int, col as int, mode, qtoks, dtoks);
        }
        let v = apply_aggregate(sum, qn, agg);
        proof {
            assert(v as int == maxsim_score_s(mode, agg, qtoks, dtoks));
            assert(v as int == batch_doc_score_s(
                mode,
                agg,
                q@,
                qn as nat,
                dflat@,
                dlens@,
                dim as nat,
                k as int,
            ));
        }
        let ghost sc_pre = scores@;
        scores[k] = v;
        proof {
            assert forall|p: int|
                s <= p < s + g + 1 implies #[trigger] scores@[order@[p] as int] as int
                == batch_doc_score_s(
                mode,
                agg,
                q@,
                qn as nat,
                dflat@,
                dlens@,
                dim as nat,
                order@[p] as int,
            ) by {
                if order@[p] as int == k as int {
                    assert(scores@[k as int] == v);
                } else {
                    assert(scores@[order@[p] as int] == sc_pre[order@[p] as int]);
                }
            }
        }
        g = g + 1;
    }
}

/// Document data packed at `co` in the staging buffer matches the flat
/// buffer at `off` for `csize` components.
pub open spec fn packed_doc_ok(
    stage: Seq<i64>,
    co: int,
    dflat: Seq<i64>,
    off: int,
    csize: int,
) -> bool {
    forall|x: int| 0 <= x < csize ==> #[trigger] stage[co + x] == dflat[off + x]
}

/// Score one chunk of up to 32 similar-length documents: pack them
/// contiguously (each at its own length, no padding) into the staging
/// buffer, then score each against the query and write the result at its
/// original index.
#[verifier::rlimit(60)]
pub fn process_uniform_chunk(
    sim: &mut Vec<i64>,
    stage: &mut Vec<i64>,
    mode: SimilarityMode,
    agg: Aggregate,
    q: &Vec<i64>,
    qn: usize,
    dflat: &Vec<i64>,
    dlens: &Vec<usize>,
    offs: &Vec<usize>,
    order: &Vec<usize>,
    s: usize,
    e: usize,
    dim: usize,
    scores: &mut Vec<i64>,
)
    requires
        1 <= qn <= MAX_TOKENS,
        dim <= MAX_DIM,
        qn * dim <= q.len(),
        s < e <= order.len(),
        e - s <= 32,
        order.len() == dlens.len(),
        old(scores).len() == dlens.len(),
        forall|p: int| 0 <= p < order.len() ==> (#[trigger] order@[p] as int) < dlens.len(),
        coll_ok(dflat@, dlens@, offs@, dim as nat),
        forall|p: int| s <= p < e ==> 1 <= #[trigger] dlens@[order@[p] as int],
        vals_bounded(q@),
        vals_bounded(old(stage)@),
    ensures
        final(scores).len() == old(scores).len(),
        forall|p: int|
            s <= p < e ==> #[trigger] final(scores)@[order@[p] as int] as int == batch_doc_score_s(
                mode,
                agg,
                q@,
                qn as nat,
                dflat@,
                dlens@,
                dim as nat,
                order@[p] as int,
            ),
        forall|k: int|
            0 <= k < old(scores).len() && (forall|p: int|
                s <= p < e ==> (#[trigger] order@[p] as int) != k)
                ==> #[trigger] final(scores)@[k] == old(scores)@[k],
        vals_bounded(final(stage)@),
        final(sim).len() >= old(sim).len(),
        final(stage).len() >= old(stage).len(),
{
    let bs = e - s;
    let mut chunk_offs: Vec<usize> = Vec::new();
    let mut cur: usize = 0;
    let mut g: usize = 0;
    while g < bs
        invariant
            0 <= g <= bs,
            1 <= bs <= 32,
            bs == e - s,
            s < e <= order.len(),
            dim <= MAX_DIM,
            order.len() == dlens.len(),
            forall|p: int| 0 <= p < order.len() ==> (#[trigger] order@[p] as int) < dlens.len(),
            coll_ok(dflat@, dlens@, offs@, dim as nat),
            forall|p: int| s <= p < e ==> 1 <= #[trigger] dlens@[order@[p] as int],
            chunk_offs.len() == g,
            cur as int <= g as int * 33554432,
            stage.len() >= cur,
            stage.len() >= old(stage).len(),
            vals_bounded(stage@),
            forall|gp: int|
                0 <= gp < g ==> (#[trigger] chunk_offs@[gp]) as int + dlens@[order@[s + gp] as int]
                    * dim <= cur,
            forall|gp: int|
                0 <= gp < g ==> #[trigger] packed_doc_ok(
                    stage@,
                    chunk_offs@[gp] as int,
                    dflat@,
                    offs@[order@[s + gp] as int] as int,
                    dlens@[order@[s + gp] as int] * dim,
                ),
        decreases bs - g,
    {
        let k = order[s + g];
        let len = dlens[k];
        let off = offs[k];
        proof {
            assert(offs@[k as int] as int == offset_of(dlens@, dim as nat, k as int));
            lemma_offset_mono(dlens@, dim as nat, k as int + 1, dlens.len() as int);
            assert(offset_of(dlens@, dim as nat, k as int + 1) == offs@[k as int] + dlens@[k as int]
                * dim);
            assert(0 <= len as int * dim <= 33554432) by (nonlinear_arith)
                requires 0 <= len as int <= MAX_TOKENS as int, 0 <= dim as int <= MAX_DIM as int,
            ;
            assert(g as int * 33554432 + 33554432 == (g as int + 1) * 33554432) by (nonlinear_arith);
            assert((g as int + 1) * 33554432 <= 32 * 33554432) by (nonlinear_arith)
                requires g as int + 1 <= 32,
            ;
        }
        let ghost stage0 = stage@;
        let ghost coffs0 = chunk_offs@;
        let csize: usize = len * dim;
        ensure_len(stage, cur + csize);
        let ghost stage1 = stage@;
        copy_region(stage, cur, dflat, off, csize);
        chunk_offs.push(cur);
        proof {
            assert(chunk_offs@ == coffs0.push(cur));
            assert forall|gp: int|
                0 <= gp < g + 1 implies (#[trigger] chunk_offs@[gp]) as int + dlens@[order@[s
                + gp] as int] * dim <= cur + csize by {
                if gp < g as int {
                    assert(chunk_offs@[gp] == coffs0[gp]);
                    assert(coffs0[gp] as int + dlens@[order@[s + gp] as int] * dim <= cur);
                } else {
                    assert(chunk_offs@[gp] == cur);
                }
            }
            assert forall|gp: int|
                0 <= gp < g + 1 implies #[trigger] packed_doc_ok(
                stage@,
                chunk_offs@[gp] as int,
                dflat@,
                offs@[order@[s + gp] as int] as int,
                dlens@[order@[s + gp] as int] * dim,
            ) by {
                if gp == g as int {
                    assert(chunk_offs@[gp] == cur);
                    assert forall|x: int|
                        0 <= x < dlens@[order@[s + gp] as int] * dim implies #[trigger] stage@[
                        chunk_offs@[gp] as int + x] == dflat@[offs@[order@[s + gp] as int] as int
                        + x] by {
                        assert(stage@[cur + x] == dflat@[off + x]);
                    }
                } else {
                    assert(chunk_offs@[gp] == coffs0[gp]);
                    assert(packed_doc_ok(
                        stage0,
                        coffs0[gp] as int,
                        dflat@,
                        offs@[order@[s + gp] as int] as int,
                        dlens@[order@[s + gp] as int] * dim,
                    ));
                    assert(chunk_offs@[gp] == coffs0[gp]);
                    assert(coffs0[gp] as int + dlens@[order@[s + gp] as int] * dim <= cur);
                    assert forall|x: int|
                        0 <= x < dlens@[order@[s + gp] as int] * dim implies #[trigger] stage@[
                        chunk_offs@[gp] as int + x] == dflat@[offs@[order@[s + gp] as int] as int
                        + x] by {
                        assert(coffs0[gp] as int + x < cur);
                        assert(cur <= stage0.len());
                        assert(stage1[coffs0[gp] as int + x] == stage0[coffs0[gp] as int + x]);
                        assert(stage@[coffs0[gp] as int + x] == stage1[coffs0[gp] as int + x]);
                        assert(stage0[coffs0[gp] as int + x] == dflat@[offs@[order@[s + gp] as int] as int + x]);
                    }
                }
            }
        }
        cur = cur + csize;
        g = g + 1;
    }
    let mut g: usize = 0;
    while g < bs
        invariant
            0 <= g <= bs,
            1 <= bs <= 32,
            bs == e - s,
            s < e <= order.len(),
            1 <= qn <= MAX_TOKENS,
            dim <= MAX_DIM,
            qn * dim <= q.len(),
            order.len() == dlens.len(),
            scores.len() == old(scores).len(),
            old(scores).len() == dlens.len(),
            forall|p: int| 0 <= p < order.len() ==> (#[trigger] order@[p] as int) < dlens.len(),
            coll_ok(dflat@, dlens@, offs@, dim as nat),
            forall|p: int| s <= p < e ==> 1 <= #[trigger] dlens@[order@[p] as int],
            chunk_offs.len() == bs,
            stage.len() >= cur,
            stage.len() >= old(stage).len(),
            sim.len() >= old(sim).len(),
            vals_bounded(q@),
            vals_bounded(stage@),
            forall|gp: int|
                0 <= gp < bs ==> (#[trigger] chunk_offs@[gp]) as int + dlens@[order@[s + gp] as int]
                    * dim <= cur,
            forall|gp: int|
                0 <= gp < bs ==> #[trigger] packed_doc_ok(
                    stage@,
                    chunk_offs@[gp] as int,
                    dflat@,
                    offs@[order@[s + gp] as int] as int,
                    dlens@[order@[s + gp] as int] * dim,
                ),
            forall|p: int|
                s <= p < s + g ==> #[trigger] scores@[order@[p] as int] as int
                    == batch_doc_score_s(
                    mode,
                    agg,
                    q@,
                    qn as nat,
                    dflat@,
                    dlens@,
                    dim as nat,
                    order@[p] as int,
                ),
            forall|k: int|
                0 <= k < dlens.len() && (forall|p: int|
                    s <= p < e ==> (#[trigger] order@[p] as int) != k) ==> #[trigger] scores@[k]
                    == old(scores)@[k],
        decreases bs - g,
    {
        let k = order[s + g];
        let len = dlens[k];
        let co = chunk_offs[g];
        let ghost off_k = offs@[k as int] as int;
        proof {
            assert(packed_doc_ok(
                stage@,
                co as int,
                dflat@,
                off_k,
                dlens@[order@[s + g] as int] * dim,
            ));
            assert(co as int + len * dim <= cur);
        }
        let v = compute_maxsim_score(sim, mode, agg, q, qn, stage, co, len, dim);
        proof {
            lemma_doc_tokens_eq(
                stage@,
                co as int,
                dflat@,
                off_k,
                len as nat,
                dim as nat,
            );
            assert(v as int == batch_doc_score_s(
                mode,
                agg,
                q@,
                qn as nat,
                dflat@,
                dlens@,
                dim as nat,
                k as int,
            ));
        }
        let ghost sc_pre = scores@;
        scores[k] = v;
        proof {
            assert forall|p: int|
                s <= p < s + g + 1 implies #[trigger] scores@[order@[p] as int] as int
                == batch_doc_score_s(
                mode,
                agg,
                q@,
                qn as nat,
                dflat@,
                dlens@,
                dim as nat,
                order@[p] as int,
            ) by {
                if order@[p] as int == k as int {
                    assert(scores@[k as int] == v);
                } else {
                    assert(scores@[order@[p] as int] == sc_pre[order@[p] as int]);
                }
            }
        }
        g = g + 1;
    }
}

} // verus!
