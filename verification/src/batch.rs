//! Batch scheduling: offsets into a flat collection, sorting document
//! indices by length, and the staging helpers the grouped paths share.

use vstd::prelude::*;
use crate::model::{
    batch_doc_score_s, lens_bounded, offset_of, total_size_s, vals_bounded, Aggregate,
    SimilarityMode, MAX_DIM, MAX_TOKENS,
};
use crate::group::{coll_ok, process_subgroup, process_uniform_chunk};
use crate::lemmas::lemma_offset_mono;
use crate::score::compute_maxsim_score;

verus! {

/// Per-document component offsets into the flat buffer: prefix sums of
/// `length * dim`.
pub fn build_offsets(dlens: &Vec<usize>, dim: usize, total: usize) -> (offs: Vec<usize>)
    requires
        total as int == total_size_s(dlens@, dim as nat),
        lens_bounded(dlens@),
        dim <= MAX_DIM,
    ensures
        offs.len() == dlens.len(),
        forall|i: int| 0 <= i < offs.len() ==> #[trigger] offs@[i] as int == offset_of(
            dlens@,
            dim as nat,
            i,
        ),
{
    let n = dlens.len();
    let mut offs: Vec<usize> = Vec::new();
    let mut acc: usize = 0;
    let mut i: usize = 0;
    while i < n
        invariant
            0 <= i <= n,
            n == dlens.len(),
            offs.len() == i,
            total as int == total_size_s(dlens@, dim as nat),
            lens_bounded(dlens@),
            dim <= MAX_DIM,
            acc as int == offset_of(dlens@, dim as nat, i as int),
            forall|p: int| 0 <= p < i ==> #[trigger] offs@[p] as int == offset_of(
                dlens@,
                dim as nat,
                p,
            ),
        decreases n - i,
    {
        offs.push(acc);
        proof {
            assert(dlens@[i as int] * dim <= MAX_TOKENS * MAX_DIM) by (nonlinear_arith)
                requires
                    dlens@[i as int] <= MAX_TOKENS,
                    dim <= MAX_DIM,
                    dlens@[i as int] >= 0,
                    dim >= 0,
            ;
            lemma_offset_mono(dlens@, dim as nat, i as int + 1, n as int);
            assert(offset_of(dlens@, dim as nat, i as int + 1) == acc as int + dlens@[i as int]
                * dim);
        }
        let step: usize = dlens[i] * dim;
        acc = acc + step;
        i = i + 1;
    }
    offs
}

/// Swapping two positions keeps every value of the sequence.
proof fn lemma_swap_contains(s: Seq<usize>, a: int, b: int, k: usize)
    requires
        0 <= a < s.len(),
        0 <= b < s.len(),
        s.contains(k),
    ensures
        s.update(a, s[b]).update(b, s[a]).contains(k),
{
    let s2 = s.update(a, s[b]).update(b, s[a]);
    let p = choose|p: int| 0 <= p < s.len() && s[p] == k;
    if p == a {
        assert(s2[b] == k);
    } else if p == b {
        if a == b {
            assert(s2[b] == k);
        } else {
            assert(s2[a] == k);
        }
    } else {
        assert(s2[p] == k);
    }
}

/// Indices of the documents, sorted by ascending length.  The result is
/// a permutation of `0..n`: every index below `n` appears.
pub fn sort_indices_by_len(dlens: &Vec<usize>) -> (order: Vec<usize>)
    ensures
        order.len() == dlens.len(),
        forall|p: int| 0 <= p < order.len() ==> (#[trigger] order@[p] as int) < dlens.len(),
        forall|a: int, b: int|
            0 <= a <= b < order.len() ==> dlens@[#[trigger] order@[a] as int] <= dlens@[#[trigger] order@[b] as int],
        forall|k: int| 0 <= k < dlens.len() ==> #[trigger] order@.contains(k as usize),
{
    let n = dlens.len();
    let mut order: Vec<usize> = Vec::new();
    let mut i: usize = 0;
    while i < n
        invariant
            0 <= i <= n,
            order.len() == i,
            forall|p: int| 0 <= p < i ==> #[trigger] order@[p] == p as usize,
        decreases n - i,
    {
        order.push(i);
        i = i + 1;
    }
    proof {
        assert forall|k: int| 0 <= k < n implies #[trigger] order@.contains(k as usize) by {
            assert(order@[k] == k as usize);
        }
    }
    let mut s: usize = 0;
    while s < n
        invariant
            0 <= s <= n,
            n == dlens.len(),
            order.len() == n,
            forall|p: int| 0 <= p < n ==> (#[trigger] order@[p] as int) < n,
            forall|k: int| 0 <= k < n ==> #[trigger] order@.contains(k as usize),
            forall|a: int, b: int|
                0 <= a <= b < s ==> dlens@[#[trigger] order@[a] as int] <= dlens@[#[trigger] order@[b] as int],
            forall|a: int, b: int|
                0 <= a < s && s <= b < n ==> dlens@[#[trigger] order@[a] as int] <= dlens@[#[trigger] order@[b] as int],
        decreases n - s,
    {
        let mut m: usize = s;
        let mut j: usize = s + 1;
        while j < n
            invariant
                s <= m < n,
                s < j <= n,
                n == dlens.len(),
                order.len() == n,
                forall|p: int| 0 <= p < n ==> (#[trigger] order@[p] as int) < n,
                forall|p: int|
                    s <= p < j ==> dlens@[order@[m as int] as int] <= dlens@[#[trigger] order@[p] as int],
            decreases n - j,
        {
            if dlens[order[j]] < dlens[order[m]] {
                m = j;
            }
            j = j + 1;
        }
        let ghost pre = order@;
        let vm = order[m];
        let vs = order[s];
        order[s] = vm;
        order[m] = vs;
        proof {
            assert(order@ =~= pre.update(s as int, pre[m as int]).update(m as int, pre[s as int]));
            assert forall|k: int| 0 <= k < n implies #[trigger] order@.contains(k as usize) by {
                lemma_swap_contains(pre, s as int, m as int, k as usize);
            }
        }
        s = s + 1;
    }
    order
}

/// Copy `n` components from `src` at `src_off` into `dst` at `dst_off`,
/// leaving every other cell of `dst` unchanged.
pub fn copy_region(dst: &mut Vec<i64>, dst_off: usize, src: &Vec<i64>, src_off: usize, n: usize)
    requires
        dst_off + n <= old(dst).len(),
        src_off + n <= src.len(),
    ensures
        final(dst).len() == old(dst).len(),
        forall|x: int| 0 <= x < n ==> #[trigger] final(dst)@[dst_off + x] == src@[src_off + x],
        forall|i: int|
            0 <= i < old(dst).len() && !(dst_off <= i < dst_off + n) ==> #[trigger] final(dst)@[i] == old(dst)@[i],
        vals_bounded(old(dst)@) && vals_bounded(src@) ==> vals_bounded(final(dst)@),
{
    let mut x: usize = 0;
    while x < n
        invariant
            0 <= x <= n,
            dst_off + n <= dst.len(),
            src_off + n <= src.len(),
            dst.len() == old(dst).len(),
            forall|y: int| 0 <= y < x ==> #[trigger] dst@[dst_off + y] == src@[src_off + y],
            forall|i: int|
                0 <= i < old(dst).len() && !(dst_off <= i < dst_off + n) ==> #[trigger] dst@[i]
                    == old(dst)@[i],
            vals_bounded(old(dst)@) && vals_bounded(src@) ==> vals_bounded(dst@),
        decreases n - x,
    {
        let v = src[src_off + x];
        dst[dst_off + x] = v;
        x = x + 1;
    }
}

/// Zero-fill `n` components of `dst` starting at `dst_off`: used to clear
/// padding regions so stale buffer contents can never be read back.
pub fn zero_region(dst: &mut Vec<i64>, dst_off: usize, n: usize)
    requires
        dst_off + n <= old(dst).len(),
    ensures
        final(dst).len() == old(dst).len(),
        forall|x: int| 0 <= x < n ==> #[trigger] final(dst)@[dst_off + x] == 0,
        forall|i: int|
            0 <= i < old(dst).len() && !(dst_off <= i < dst_off + n) ==> #[trigger] final(dst)@[i] == old(dst)@[i],
        vals_bounded(old(dst)@) ==> vals_bounded(final(dst)@),
{
    let mut x: usize = 0;
    while x < n
        invariant
            0 <= x <= n,
            dst_off + n <= dst.len(),
            dst.len() == old(dst).len(),
            vals_bounded(old(dst)@) ==> vals_bounded(dst@),
            forall|y: int| 0 <= y < x ==> #[trigger] dst@[dst_off + y] == 0,
            forall|i: int|
                0 <= i < old(dst).len() && !(dst_off <= i < dst_off + n) ==> #[trigger] dst@[i]
                    == old(dst)@[i],
        decreases n - x,
    {
        dst[dst_off + x] = 0;
        x = x + 1;
    }
}

/// After a grouped call wrote the scores of `order[s..e]` and left every
/// other entry unchanged, the prefix `order[0..e]` is fully scored.
proof fn lemma_extend_written(
    pre: Seq<i64>,
    post: Seq<i64>,
    order: Seq<usize>,
    mode: crate::model::SimilarityMode,
    agg: crate::model::Aggregate,
    qv: Seq<i64>,
    qn: nat,
    dflat: Seq<i64>,
    dlens: Seq<usize>,
    dim: nat,
    s: int,
    e: int,
)
    requires
        0 <= s <= e <= order.len(),
        pre.len() == post.len(),
        pre.len() == dlens.len(),
        forall|p: int| 0 <= p < order.len() ==> (#[trigger] order[p] as int) < dlens.len(),
        forall|p: int|
            0 <= p < s ==> #[trigger] pre[order[p] as int] as int == crate::model::batch_doc_score_s(
                mode, agg, qv, qn, dflat, dlens, dim, order[p] as int,
            ),
        forall|p: int|
            s <= p < e ==> #[trigger] post[order[p] as int] as int == crate::model::batch_doc_score_s(
                mode, agg, qv, qn, dflat, dlens, dim, order[p] as int,
            ),
        forall|k: int|
            0 <= k < pre.len() && (forall|p: int| s <= p < e ==> (#[trigger] order[p] as int) != k)
                ==> #[trigger] post[k] == pre[k],
    ensures
        forall|p: int|
            0 <= p < e ==> #[trigger] post[order[p] as int] as int == crate::model::batch_doc_score_s(
                mode, agg, qv, qn, dflat, dlens, dim, order[p] as int,
            ),
{
    assert forall|p: int|
        0 <= p < e implies #[trigger] post[order[p] as int] as int
        == crate::model::batch_doc_score_s(mode, agg, qv, qn, dflat, dlens, dim, order[p] as int) by {
        if p < s {
            let k = order[p] as int;
            if exists|pp: int| s <= pp < e && (#[trigger] order[pp] as int) == k {
                let pp = choose|pp: int| s <= pp < e && (#[trigger] order[pp] as int) == k;
                assert(post[order[pp] as int] as int == crate::model::batch_doc_score_s(
                    mode, agg, qv, qn, dflat, dlens, dim, order[pp] as int,
                ));
            } else {
                assert(forall|pp: int| s <= pp < e ==> (#[trigger] order[pp] as int) != k);
                assert(post[k] == pre[k]);
            }
        }
    }
}

/// Score every document of a flat collection against the query, writing
/// each score at the document's original position.  Documents are sorted
/// by length and grouped — near-uniform collections go through fixed
/// chunks packed without padding at each document's own length, variable
/// ones through zero-padded sub-batches within a 1.2x length tolerance —
/// but the output order is always the input order, and every score
/// equals the document's own MaxSim score.
#[verifier::rlimit(60)]
pub fn score_batch(
    sim: &mut Vec<i64>,
    stage: &mut Vec<i64>,
    mode: SimilarityMode,
    agg: Aggregate,
    q: &Vec<i64>,
    qn: usize,
    dflat: &Vec<i64>,
    dlens: &Vec<usize>,
    dim: usize,
) -> (scores: Vec<i64>)
    requires
        qn <= MAX_TOKENS,
        dim <= MAX_DIM,
        q.len() == qn * dim,
        lens_bounded(dlens@),
        dflat.len() as int == total_size_s(dlens@, dim as nat),
        vals_bounded(q@),
        vals_bounded(dflat@),
        vals_bounded(old(stage)@),
    ensures
        scores.len() == dlens.len(),
        forall|k: int|
            0 <= k < dlens.len() ==> #[trigger] scores@[k] as int == batch_doc_score_s(
                mode,
                agg,
                q@,
                qn as nat,
                dflat@,
                dlens@,
                dim as nat,
                k,
            ),
        vals_bounded(final(stage)@),
        final(sim).len() >= old(sim).len(),
        final(stage).len() >= old(stage).len(),
{
    let n = dlens.len();
    let mut scores: Vec<i64> = Vec::new();
    let mut z: usize = 0;
    while z < n
        invariant
            0 <= z <= n,
            scores.len() == z,
            forall|k: int| 0 <= k < z ==> #[trigger] scores@[k] == 0i64,
        decreases n - z,
    {
        scores.push(0);
        z = z + 1;
    }
    if n == 0 {
        return scores;
    }
    if qn == 0 {
        proof {
            assert forall|k: int|
                0 <= k < n implies #[trigger] scores@[k] as int == batch_doc_score_s(
                mode,
                agg,
                q@,
                qn as nat,
                dflat@,
                dlens@,
                dim as nat,
                k,
            ) by {
                assert(crate::model::tokens_of(q@, 0, dim as nat).len() == 0);
            }
        }
        return scores;
    }
    let offs = build_offsets(dlens, dim, dflat.len());
    let order = sort_indices_by_len(dlens);
    let min_len = dlens[order[0]];
    let max_len = dlens[order[n - 1]];
    if min_len > 0 && max_len * 10 <= min_len * 12 && n >= 50 {
        // Uniform fast path: fixed chunks of 32, packed without padding.
        let mut c: usize = 0;
        while c < n
            invariant
                0 <= c <= n,
                n == dlens.len(),
                1 <= qn <= MAX_TOKENS,
                dim <= MAX_DIM,
                q.len() == qn * dim,
                coll_ok(dflat@, dlens@, offs@, dim as nat),
                vals_bounded(q@),
                order.len() == n,
                forall|p: int| 0 <= p < n ==> (#[trigger] order@[p] as int) < n,
                forall|a: int, b: int|
                    0 <= a <= b < n ==> dlens@[#[trigger] order@[a] as int] <= dlens@[#[trigger] order@[b] as int],
                forall|k: int| 0 <= k < n ==> #[trigger] order@.contains(k as usize),
                min_len == dlens@[order@[0] as int],
                min_len >= 1,
                scores.len() == n,
                vals_bounded(stage@),
                sim.len() >= old(sim).len(),
                stage.len() >= old(stage).len(),
                forall|p: int|
                    0 <= p < c ==> #[trigger] scores@[order@[p] as int] as int
                        == batch_doc_score_s(
                        mode,
                        agg,
                        q@,
                        qn as nat,
                        dflat@,
                        dlens@,
                        dim as nat,
                        order@[p] as int,
                    ),
            decreases n - c,
        {
            let e = if n - c > 32 {
                c + 32
            } else {
                n
            };
            proof {
                assert forall|p: int| c <= p < e implies 1 <= #[trigger] dlens@[order@[p] as int] by {
                    assert(dlens@[order@[0] as int] <= dlens@[order@[p] as int]);
                }
            }
            let ghost pre = scores@;
            process_uniform_chunk(
                sim, stage, mode, agg, q, qn, dflat, dlens, &offs, &order, c, e, dim, &mut scores,
            );
            proof {
                lemma_extend_written(
                    pre,
                    scores@,
                    order@,
                    mode,
                    agg,
                    q@,
                    qn as nat,
                    dflat@,
                    dlens@,
                    dim as nat,
                    c as int,
                    e as int,
                );
            }
            c = e;
        }
        proof {
            assert forall|k: int|
                0 <= k < n implies #[trigger] scores@[k] as int == batch_doc_score_s(
                mode,
                agg,
                q@,
                qn as nat,
                dflat@,
                dlens@,
                dim as nat,
                k,
            ) by {
                assert(order@.contains(k as usize));
                let p = choose|p: int| 0 <= p < order@.len() && order@[p] == k as usize;
                assert(scores@[order@[p] as int] as int == batch_doc_score_s(
                    mode,
                    agg,
                    q@,
                    qn as nat,
                    dflat@,
                    dlens@,
                    dim as nat,
                    order@[p] as int,
                ));
            }
        }
        return scores;
    }
    // General path: maximal runs within the 1.2x length tolerance, capped
    // at 128 documents; runs under 4 documents are scored individually.
    let mut i: usize = 0;
    while i < n
        invariant
            0 <= i <= n,
            n == dlens.len(),
            1 <= qn <= MAX_TOKENS,
            dim <= MAX_DIM,
            q.len() == qn * dim,
            coll_ok(dflat@, dlens@, offs@, dim as nat),
            vals_bounded(q@),
            order.len() == n,
            forall|p: int| 0 <= p < n ==> (#[trigger] order@[p] as int) < n,
            forall|a: int, b: int|
                0 <= a <= b < n ==> dlens@[#[trigger] order@[a] as int] <= dlens@[#[trigger] order@[b] as int],
            forall|k: int| 0 <= k < n ==> #[trigger] order@.contains(k as usize),
            scores.len() == n,
            vals_bounded(stage@),
            sim.len() >= old(sim).len(),
            stage.len() >= old(stage).len(),
            forall|p: int|
                0 <= p < i ==> #[trigger] scores@[order@[p] as int] as int == batch_doc_score_s(
                    mode,
                    agg,
                    q@,
                    qn as nat,
                    dflat@,
                    dlens@,
                    dim as nat,
                    order@[p] as int,
                ),
        decreases n - i,
    {
        let k0 = order[i];
        let base = dlens[k0];
        if base == 0 {
            // An empty document scores zero under either aggregate; its
            // slot already holds the right value, written explicitly.
            proof {
                assert(crate::model::doc_tokens(
                    dflat@,
                    offset_of(dlens@, dim as nat, k0 as int),
                    0,
                    dim as nat,
                ).len() == 0);
                assert(0int / (qn as int) == 0) by (nonlinear_arith)
                    requires qn as int >= 1,
                ;
            }
            let ghost pre = scores@;
            scores[k0] = 0;
            proof {
                assert forall|p: int|
                    i <= p < i + 1 implies #[trigger] scores@[order@[p] as int] as int
                    == batch_doc_score_s(
                    mode,
                    agg,
                    q@,
                    qn as nat,
                    dflat@,
                    dlens@,
                    dim as nat,
                    order@[p] as int,
                ) by {
                    assert(order@[p] == k0);
                }
                assert forall|k: int|
                    0 <= k < n && (forall|pp: int|
                        i <= pp < i + 1 ==> (#[trigger] order@[pp] as int) != k)
                        implies #[trigger] scores@[k] == pre[k] by {
                    assert(order@[i as int] as int != k);
                }
                lemma_extend_written(
                    pre,
                    scores@,
                    order@,
                    mode,
                    agg,
                    q@,
                    qn as nat,
                    dflat@,
                    dlens@,
                    dim as nat,
                    i as int,
                    i as int + 1,
                );
            }
            i = i + 1;
        } else {
            // Scan the maximal run within tolerance of the base length.
            let mut be: usize = i + 1;
            while be < n && be - i < 128 && dlens[order[be]] * 10 <= base * 12
                invariant
                    i < be <= n,
                    n == dlens.len(),
                    order.len() == n,
                    forall|p: int| 0 <= p < n ==> (#[trigger] order@[p] as int) < n,
                    lens_bounded(dlens@),
                    base <= MAX_TOKENS,
                decreases n - be,
            {
                be = be + 1;
            }
            // The run's true maximum length.
            let mut ml: usize = base;
            let mut p2: usize = i + 1;
            while p2 < be
                invariant
                    i < p2 <= be <= n,
                    n == dlens.len(),
                    order.len() == n,
                    forall|p: int| 0 <= p < n ==> (#[trigger] order@[p] as int) < n,
                    lens_bounded(dlens@),
                    base <= ml <= MAX_TOKENS,
                    forall|p: int| i <= p < p2 ==> #[trigger] dlens@[order@[p] as int] <= ml,
                decreases be - p2,
            {
                let lp = dlens[order[p2]];
                if lp > ml {
                    ml = lp;
                }
                p2 = p2 + 1;
            }
            proof {
                assert forall|p: int| i <= p < be implies 1 <= #[trigger] dlens@[order@[p] as int]
                    by {
                    assert(dlens@[order@[i as int] as int] <= dlens@[order@[p] as int]);
                }
            }
            if be - i < 4 {
                // Too small to batch: score each document in place.
                let mut p3: usize = i;
                while p3 < be
                    invariant
                        i <= p3 <= be <= n,
                        n == dlens.len(),
                        1 <= qn <= MAX_TOKENS,
                        dim <= MAX_DIM,
                        q.len() == qn * dim,
                        coll_ok(dflat@, dlens@, offs@, dim as nat),
                        vals_bounded(q@),
                        order.len() == n,
                        forall|p: int| 0 <= p < n ==> (#[trigger] order@[p] as int) < n,
                        scores.len() == n,
                        vals_bounded(stage@),
                        sim.len() >= old(sim).len(),
                        stage.len() >= old(stage).len(),
                        forall|p: int|
                            0 <= p < p3 ==> #[trigger] scores@[order@[p] as int] as int
                                == batch_doc_score_s(
                                mode,
                                agg,
                                q@,
                                qn as nat,
                                dflat@,
                                dlens@,
                                dim as nat,
                                order@[p] as int,
                            ),
                    decreases be - p3,
                {
                    let k = order[p3];
                    let len = dlens[k];
                    let off = offs[k];
                    proof {
                        assert(offs@[k as int] as int == offset_of(dlens@, dim as nat, k as int));
                        lemma_offset_mono(dlens@, dim as nat, k as int + 1, n as int);
                        assert(offset_of(dlens@, dim as nat, k as int + 1) == offs@[k as int]
                            + dlens@[k as int] * dim);
                    }
                    let ghost pre = scores@;
                    let v = compute_maxsim_score(sim, mode, agg, q, qn, dflat, off, len, dim);
                    scores[k] = v;
                    proof {
                        assert forall|p: int|
                            p3 <= p < p3 + 1 implies #[trigger] scores@[order@[p] as int] as int
                            == batch_doc_score_s(
                            mode,
                            agg,
                            q@,
                            qn as nat,
                            dflat@,
                            dlens@,
                            dim as nat,
                            order@[p] as int,
                        ) by {
                            assert(order@[p] == k);
                        }
                        assert forall|kk: int|
                            0 <= kk < n && (forall|pp: int|
                                p3 <= pp < p3 + 1 ==> (#[trigger] order@[pp] as int) != kk)
                                implies #[trigger] scores@[kk] == pre[kk] by {
                            assert(order@[p3 as int] as int != kk);
                        }
                        lemma_extend_written(
                            pre,
                            scores@,
                            order@,
                            mode,
                            agg,
                            q@,
                            qn as nat,
                            dflat@,
                            dlens@,
                            dim as nat,
                            p3 as int,
                            p3 as int + 1,
                        );
                    }
                    p3 = p3 + 1;
                }
            } else {
                // Batch the run through zero-padded sub-batches of 16.
                let mut p4: usize = i;
                while p4 < be
                    invariant
                        i <= p4 <= be <= n,
                        n == dlens.len(),
                        1 <= qn <= MAX_TOKENS,
                        dim <= MAX_DIM,
                        q.len() == qn * dim,
                        coll_ok(dflat@, dlens@, offs@, dim as nat),
                        vals_bounded(q@),
                        order.len() == n,
                        forall|p: int| 0 <= p < n ==> (#[trigger] order@[p] as int) < n,
                        1 <= ml <= MAX_TOKENS,
                        forall|p: int|
                            i <= p < be ==> 1 <= #[trigger] dlens@[order@[p] as int] <= ml,
                        scores.len() == n,
                        vals_bounded(stage@),
                        sim.len() >= old(sim).len(),
                        stage.len() >= old(stage).len(),
                        forall|p: int|
                            0 <= p < p4 ==> #[trigger] scores@[order@[p] as int] as int
                                == batch_doc_score_s(
                                mode,
                                agg,
                                q@,
                                qn as nat,
                                dflat@,
                                dlens@,
                                dim as nat,
                                order@[p] as int,
                            ),
                    decreases be - p4,
                {
                    let e4 = if be - p4 > 16 {
                        p4 + 16
                    } else {
                        be
                    };
                    let ghost pre = scores@;
                    process_subgroup(
                        sim, stage, mode, agg, q, qn, dflat, dlens, &offs, &order, p4, e4, ml,
                        dim, &mut scores,
                    );
                    proof {
                        lemma_extend_written(
                            pre,
                            scores@,
                            order@,
                            mode,
                            agg,
                            q@,
                            qn as nat,
                            dflat@,
                            dlens@,
                            dim as nat,
                            p4 as int,
                            e4 as int,
                        );
                    }
                    p4 = e4;
                }
            }
            i = be;
        }
    }
    proof {
        assert forall|k: int|
            0 <= k < n implies #[trigger] scores@[k] as int == batch_doc_score_s(
            mode,
            agg,
            q@,
            qn as nat,
            dflat@,
            dlens@,
            dim as nat,
            k,
        ) by {
            assert(order@.contains(k as usize));
            let p = choose|p: int| 0 <= p < order@.len() && order@[p] == k as usize;
            assert(scores@[order@[p] as int] as int == batch_doc_score_s(
                mode,
                agg,
                q@,
                qn as nat,
                dflat@,
                dlens@,
                dim as nat,
                order@[p] as int,
            ));
        }
    }
    scores
}

} // verus!
