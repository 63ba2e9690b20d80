//! The MaxSim engine: reusable scratch buffers, the optional preloaded
//! document collection, and the public scoring entry points.

use vstd::prelude::*;
use crate::model::{
    batch_doc_score_s, lens_bounded, single_score_s, total_size_s, vals_bounded, Aggregate,
    SimilarityMode, MAX_DIM, MAX_TOKENS,
};
use crate::batch::score_batch;
use crate::errors::MaxSimError;
use crate::lemmas::lemma_offset_mono;
use crate::model::offset_of;
use crate::score::compute_maxsim_score;

verus! {

/// A preloaded document collection, kept in one contiguous buffer in the
/// caller's original order; sorting happens on the fly at each search.
struct PreloadedDocuments {
    embeddings_flat: Vec<i64>,
    doc_tokens: Vec<usize>,
    embedding_dim: usize,
}

impl PreloadedDocuments {
    /// The collection is internally consistent: a positive dimension,
    /// at least one document, and a flat buffer of exactly the declared
    /// size, all within the engine's capacity limits.
    spec fn wf(&self) -> bool {
        &&& 1 <= self.embedding_dim <= MAX_DIM
        &&& self.doc_tokens.len() >= 1
        &&& lens_bounded(self.doc_tokens@)
        &&& self.embeddings_flat.len() as int == total_size_s(
            self.doc_tokens@,
            self.embedding_dim as nat,
        )
        &&& vals_bounded(self.embeddings_flat@)
    }
}

/// Element-for-element copy with a pinned-down view.
fn clone_vals(v: &Vec<i64>) -> (r: Vec<i64>)
    ensures
        r@ == v@,
{
    let mut r: Vec<i64> = Vec::new();
    let mut i: usize = 0;
    while i < v.len()
        invariant
            0 <= i <= v.len(),
            r@ == v@.take(i as int),
        decreases v.len() - i,
    {
        r.push(v[i]);
        proof {
            assert(v@.take(i as int).push(v@[i as int]) =~= v@.take(i as int + 1));
        }
        i = i + 1;
    }
    proof {
        assert(v@.take(v.len() as int) =~= v@);
    }
    r
}

/// Element-for-element copy with a pinned-down view.
fn clone_lens(v: &Vec<usize>) -> (r: Vec<usize>)
    ensures
        r@ == v@,
{
    let mut r: Vec<usize> = Vec::new();
    let mut i: usize = 0;
    while i < v.len()
        invariant
            0 <= i <= v.len(),
            r@ == v@.take(i as int),
        decreases v.len() - i,
    {
        r.push(v[i]);
        proof {
            assert(v@.take(i as int).push(v@[i as int]) =~= v@.take(i as int + 1));
        }
        i = i + 1;
    }
    proof {
        assert(v@.take(v.len() as int) =~= v@);
    }
    r
}

/// The MaxSim scoring engine.
///
/// One instance owns its scratch buffers exclusively: the similarity
/// buffer holds one score computation's matrix or tensor, the batch
/// buffer stages grouped documents.  Both grow on demand and are never
/// shrunk.  Instances share no state; use one instance per worker.
pub struct MaxSimWasm {
    mode: SimilarityMode,
    similarity_buffer: Vec<i64>,
    batch_buffer: Vec<i64>,
    documents: Option<PreloadedDocuments>,
}

impl MaxSimWasm {
    /// The engine invariant: staged data stays within the component
    /// bounds, and a loaded collection is consistent.
    pub closed spec fn wf(&self) -> bool {
        &&& vals_bounded(self.batch_buffer@)
        &&& match self.documents {
            Option::Some(d) => d.wf(),
            Option::None => true,
        }
    }

    /// The similarity mode this engine was constructed with.
    pub closed spec fn mode_s(&self) -> SimilarityMode {
        self.mode
    }

    /// Whether a collection is loaded.
    pub closed spec fn docs_loaded(&self) -> bool {
        self.documents is Some
    }

    /// The loaded collection's flat components.
    pub closed spec fn docs_flat(&self) -> Seq<i64> {
        self.documents->Some_0.embeddings_flat@
    }

    /// The loaded collection's per-document token counts.
    pub closed spec fn docs_lens(&self) -> Seq<usize> {
        self.documents->Some_0.doc_tokens@
    }

    /// The loaded collection's embedding dimension.
    pub closed spec fn docs_dim(&self) -> nat {
        self.documents->Some_0.embedding_dim as nat
    }

    /// The document store is the same in both states.
    pub open spec fn store_unchanged(&self, other: &Self) -> bool {
        &&& self.docs_loaded() == other.docs_loaded()
        &&& self.docs_flat() == other.docs_flat()
        &&& self.docs_lens() == other.docs_lens()
        &&& self.docs_dim() == other.docs_dim()
    }

    /// A new engine in `dot` mode: for embeddings that are already
    /// L2-normalized, the dot product equals cosine similarity and skips
    /// the square roots.
    pub fn new() -> (r: MaxSimWasm)
        ensures
            r.wf(),
            r.mode_s() == SimilarityMode::Dot,
            !r.docs_loaded(),
    {
        MaxSimWasm {
            mode: SimilarityMode::Dot,
            similarity_buffer: Vec::new(),
            batch_buffer: Vec::new(),
            documents: Option::None,
        }
    }

    /// A new engine with an explicit similarity mode: `Dot` when the
    /// caller's embeddings are already L2-normalized, `Cosine` otherwise.
    pub fn new_with_mode(mode: SimilarityMode) -> (r: MaxSimWasm)
        ensures
            r.wf(),
            r.mode_s() == mode,
            !r.docs_loaded(),
    {
        MaxSimWasm {
            mode,
            similarity_buffer: Vec::new(),
            batch_buffer: Vec::new(),
            documents: Option::None,
        }
    }

    /// MaxSim score of one query against one document, raw sum.
    pub fn maxsim_single(
        &mut self,
        query_flat: &Vec<i64>,
        query_tokens: usize,
        doc_flat: &Vec<i64>,
        doc_tokens: usize,
        embedding_dim: usize,
    ) -> (r: i64)
        requires
            old(self).wf(),
            query_tokens <= MAX_TOKENS,
            doc_tokens <= MAX_TOKENS,
            embedding_dim <= MAX_DIM,
            query_flat.len() == query_tokens * embedding_dim,
            doc_flat.len() == doc_tokens * embedding_dim,
            vals_bounded(query_flat@),
            vals_bounded(doc_flat@),
        ensures
            final(self).wf(),
            final(self).mode_s() == old(self).mode_s(),
            final(self).store_unchanged(old(self)),
            r as int == single_score_s(
                old(self).mode_s(),
                Aggregate::Sum,
                query_flat@,
                query_tokens as nat,
                doc_flat@,
                doc_tokens as nat,
                embedding_dim as nat,
            ),
            query_tokens == 0 || doc_tokens == 0 ==> r == 0,
    {
        self.single_impl(query_flat, query_tokens, doc_flat, doc_tokens, embedding_dim, Aggregate::Sum)
    }

    /// MaxSim score of one query against one document, averaged over the
    /// query length for cross-query comparison.
    pub fn maxsim_single_normalized(
        &mut self,
        query_flat: &Vec<i64>,
        query_tokens: usize,
        doc_flat: &Vec<i64>,
        doc_tokens: usize,
        embedding_dim: usize,
    ) -> (r: i64)
        requires
            old(self).wf(),
            query_tokens <= MAX_TOKENS,
            doc_tokens <= MAX_TOKENS,
            embedding_dim <= MAX_DIM,
            query_flat.len() == query_tokens * embedding_dim,
            doc_flat.len() == doc_tokens * embedding_dim,
            vals_bounded(query_flat@),
            vals_bounded(doc_flat@),
        ensures
            final(self).wf(),
            final(self).mode_s() == old(self).mode_s(),
            final(self).store_unchanged(old(self)),
            r as int == single_score_s(
                old(self).mode_s(),
                Aggregate::Mean,
                query_flat@,
                query_tokens as nat,
                doc_flat@,
                doc_tokens as nat,
                embedding_dim as nat,
            ),
            query_tokens == 0 || doc_tokens == 0 ==> r == 0,
    {
        self.single_impl(query_flat, query_tokens, doc_flat, doc_tokens, embedding_dim, Aggregate::Mean)
    }

    /// Shared implementation of the two single-document entry points.
    fn single_impl(
        &mut self,
        query_flat: &Vec<i64>,
        query_tokens: usize,
        doc_flat: &Vec<i64>,
        doc_tokens: usize,
        embedding_dim: usize,
        agg: Aggregate,
    ) -> (r: i64)
        requires
            old(self).wf(),
            query_tokens <= MAX_TOKENS,
            doc_tokens <= MAX_TOKENS,
            embedding_dim <= MAX_DIM,
            query_flat.len() == query_tokens * embedding_dim,
            doc_flat.len() == doc_tokens * embedding_dim,
            vals_bounded(query_flat@),
            vals_bounded(doc_flat@),
        ensures
            final(self).wf(),
            final(self).mode_s() == old(self).mode_s(),
            final(self).store_unchanged(old(self)),
            r as int == single_score_s(
                old(self).mode_s(),
                agg,
                query_flat@,
                query_tokens as nat,
                doc_flat@,
                doc_tokens as nat,
                embedding_dim as nat,
            ),
            query_tokens == 0 || doc_tokens == 0 ==> r == 0,
    {
        let r = compute_maxsim_score(
            &mut self.similarity_buffer,
            self.mode,
            agg,
            query_flat,
            query_tokens,
            doc_flat,
            0,
            doc_tokens,
            embedding_dim,
        );
        proof {
            if query_tokens == 0 || doc_tokens == 0 {
                if query_tokens > 0 {
                    assert(0int / (query_tokens as int) == 0) by (nonlinear_arith)
                        requires query_tokens as int >= 1,
                    ;
                }
            }
        }
        r
    }

    /// MaxSim scores of one query against a flat collection, raw sum,
    /// one score per document in the collection's own order.
    pub fn maxsim_batch(
        &mut self,
        query_flat: &Vec<i64>,
        query_tokens: usize,
        doc_flat: &Vec<i64>,
        doc_tokens: &Vec<usize>,
        embedding_dim: usize,
    ) -> (r: Vec<i64>)
        requires
            old(self).wf(),
            query_tokens <= MAX_TOKENS,
            embedding_dim <= MAX_DIM,
            query_flat.len() == query_tokens * embedding_dim,
            lens_bounded(doc_tokens@),
            doc_flat.len() as int == total_size_s(doc_tokens@, embedding_dim as nat),
            vals_bounded(query_flat@),
            vals_bounded(doc_flat@),
        ensures
            final(self).wf(),
            final(self).mode_s() == old(self).mode_s(),
            final(self).store_unchanged(old(self)),
            r.len() == doc_tokens.len(),
            forall|k: int|
                0 <= k < doc_tokens.len() ==> #[trigger] r@[k] as int == batch_doc_score_s(
                    old(self).mode_s(),
                    Aggregate::Sum,
                    query_flat@,
                    query_tokens as nat,
                    doc_flat@,
                    doc_tokens@,
                    embedding_dim as nat,
                    k,
                ),
    {
        let mode = self.mode;
        score_batch(
            &mut self.similarity_buffer,
            &mut self.batch_buffer,
            mode,
            Aggregate::Sum,
            query_flat,
            query_tokens,
            doc_flat,
            doc_tokens,
            embedding_dim,
        )
    }

    /// MaxSim scores of one query against a flat collection, averaged
    /// over the query length, in the collection's own order.
    pub fn maxsim_batch_normalized(
        &mut self,
        query_flat: &Vec<i64>,
        query_tokens: usize,
        doc_flat: &Vec<i64>,
        doc_tokens: &Vec<usize>,
        embedding_dim: usize,
    ) -> (r: Vec<i64>)
        requires
            old(self).wf(),
            query_tokens <= MAX_TOKENS,
            embedding_dim <= MAX_DIM,
            query_flat.len() == query_tokens * embedding_dim,
            lens_bounded(doc_tokens@),
            doc_flat.len() as int == total_size_s(doc_tokens@, embedding_dim as nat),
            vals_bounded(query_flat@),
            vals_bounded(doc_flat@),
        ensures
            final(self).wf(),
            final(self).mode_s() == old(self).mode_s(),
            final(self).store_unchanged(old(self)),
            r.len() == doc_tokens.len(),
            forall|k: int|
                0 <= k < doc_tokens.len() ==> #[trigger] r@[k] as int == batch_doc_score_s(
                    old(self).mode_s(),
                    Aggregate::Mean,
                    query_flat@,
                    query_tokens as nat,
                    doc_flat@,
                    doc_tokens@,
                    embedding_dim as nat,
                    k,
                ),
    {
        let mode = self.mode;
        score_batch(
            &mut self.similarity_buffer,
            &mut self.batch_buffer,
            mode,
            Aggregate::Mean,
            query_flat,
            query_tokens,
            doc_flat,
            doc_tokens,
            embedding_dim,
        )
    }

    /// A short description of the engine's configuration.
    pub fn get_info(&self) -> (r: String)
        ensures
            r@ == "MaxSim engine (adaptive_batching: true, buffer_reuse: true, preloading: true)"@,
    {
        "MaxSim engine (adaptive_batching: true, buffer_reuse: true, preloading: true)".to_owned()
    }

    /// Number of documents in the loaded collection, `0` when none is.
    pub fn num_documents_loaded(&self) -> (r: usize)
        ensures
            r == if self.docs_loaded() {
                self.docs_lens().len() as int
            } else {
                0
            },
    {
        match &self.documents {
            Option::Some(d) => d.doc_tokens.len(),
            Option::None => 0,
        }
    }

    /// Shared implementation of the uniform-length batch entry points:
    /// every document has `doc_tokens` tokens, stored back to back.
    fn uniform_impl(
        &mut self,
        query_flat: &Vec<i64>,
        query_tokens: usize,
        doc_flat: &Vec<i64>,
        num_docs: usize,
        doc_tokens: usize,
        embedding_dim: usize,
        agg: Aggregate,
    ) -> (r: Vec<i64>)
        requires
            old(self).wf(),
            query_tokens <= MAX_TOKENS,
            doc_tokens <= MAX_TOKENS,
            embedding_dim <= MAX_DIM,
            query_flat.len() == query_tokens * embedding_dim,
            doc_flat.len() == num_docs * (doc_tokens * embedding_dim),
            vals_bounded(query_flat@),
            vals_bounded(doc_flat@),
        ensures
            final(self).wf(),
            final(self).mode_s() == old(self).mode_s(),
            final(self).store_unchanged(old(self)),
            r.len() == num_docs,
            forall|d: int|
                0 <= d < num_docs ==> #[trigger] r@[d] as int == crate::model::maxsim_score_s(
                    old(self).mode_s(),
                    agg,
                    crate::model::tokens_of(query_flat@, query_tokens as nat, embedding_dim as nat),
                    crate::model::doc_tokens(
                        doc_flat@,
                        d * ((doc_tokens * embedding_dim) as int),
                        doc_tokens as nat,
                        embedding_dim as nat,
                    ),
                ),
    {
        let n = num_docs;
        proof {
            assert(doc_tokens * embedding_dim <= MAX_TOKENS * MAX_DIM) by (nonlinear_arith)
                requires
                    doc_tokens <= MAX_TOKENS,
                    embedding_dim <= MAX_DIM,
                    doc_tokens >= 0,
                    embedding_dim >= 0,
            ;
        }
        let stride: usize = doc_tokens * embedding_dim;
        let mut scores: Vec<i64> = Vec::new();
        if query_tokens == 0 || doc_tokens == 0 {
            let mut z: usize = 0;
            while z < n
                invariant
                    0 <= z <= n,
                    scores.len() == z,
                    forall|d: int| 0 <= d < z ==> #[trigger] scores@[d] == 0i64,
                decreases n - z,
            {
                scores.push(0);
                z = z + 1;
            }
            proof {
                if query_tokens > 0 {
                    assert(0int / (query_tokens as int) == 0) by (nonlinear_arith)
                        requires query_tokens as int >= 1,
                    ;
                }
                assert forall|d: int|
                    0 <= d < n implies #[trigger] scores@[d] as int
                    == crate::model::maxsim_score_s(
                    old(self).mode_s(),
                    agg,
                    crate::model::tokens_of(query_flat@, query_tokens as nat, embedding_dim as nat),
                    crate::model::doc_tokens(
                        doc_flat@,
                        d * ((doc_tokens * embedding_dim) as int),
                        doc_tokens as nat,
                        embedding_dim as nat,
                    ),
                ) by {
                    assert(crate::model::tokens_of(
                        query_flat@,
                        query_tokens as nat,
                        embedding_dim as nat,
                    ).len() == query_tokens);
                }
            }
            return scores;
        }
        let mut d: usize = 0;
        while d < n
            invariant
                0 <= d <= n,
                1 <= query_tokens <= MAX_TOKENS,
                1 <= doc_tokens <= MAX_TOKENS,
                embedding_dim <= MAX_DIM,
                stride == doc_tokens * embedding_dim,
                query_flat.len() == query_tokens * embedding_dim,
                doc_flat.len() == n * stride,
                vals_bounded(query_flat@),
                vals_bounded(doc_flat@),
                self.wf(),
                self.mode_s() == old(self).mode_s(),
                self.store_unchanged(old(self)),
                scores.len() == d,
                forall|dd: int|
                    0 <= dd < d ==> #[trigger] scores@[dd] as int
                        == crate::model::maxsim_score_s(
                        old(self).mode_s(),
                        agg,
                        crate::model::tokens_of(
                            query_flat@,
                            query_tokens as nat,
                            embedding_dim as nat,
                        ),
                        crate::model::doc_tokens(
                            doc_flat@,
                            dd * (stride as int),
                            doc_tokens as nat,
                            embedding_dim as nat,
                        ),
                    ),
            decreases n - d,
        {
            proof {
                assert((d as int + 1) * stride <= n as int * stride && d as int * stride + stride
                    == (d as int + 1) * stride && 0 <= d as int * stride) by (nonlinear_arith)
                    requires 0 <= d as int, d as int + 1 <= n as int, stride as int >= 0,
                ;
            }
            let off: usize = d * stride;
            let v = compute_maxsim_score(
                &mut self.similarity_buffer,
                self.mode,
                agg,
                query_flat,
                query_tokens,
                doc_flat,
                off,
                doc_tokens,
                embedding_dim,
            );
            scores.push(v);
            d = d + 1;
        }
        scores
    }

    /// MaxSim scores for a collection whose documents all share one
    /// length, raw sum, in the collection's own order.
    pub fn maxsim_batch_uniform(
        &mut self,
        query_flat: &Vec<i64>,
        query_tokens: usize,
        doc_flat: &Vec<i64>,
        num_docs: usize,
        doc_tokens: usize,
        embedding_dim: usize,
    ) -> (r: Vec<i64>)
        requires
            old(self).wf(),
            query_tokens <= MAX_TOKENS,
            doc_tokens <= MAX_TOKENS,
            embedding_dim <= MAX_DIM,
            query_flat.len() == query_tokens * embedding_dim,
            doc_flat.len() == num_docs * (doc_tokens * embedding_dim),
            vals_bounded(query_flat@),
            vals_bounded(doc_flat@),
        ensures
            final(self).wf(),
            final(self).mode_s() == old(self).mode_s(),
            final(self).store_unchanged(old(self)),
            r.len() == num_docs,
            forall|d: int|
                0 <= d < num_docs ==> #[trigger] r@[d] as int == crate::model::maxsim_score_s(
                    old(self).mode_s(),
                    Aggregate::Sum,
                    crate::model::tokens_of(query_flat@, query_tokens as nat, embedding_dim as nat),
                    crate::model::doc_tokens(
                        doc_flat@,
                        d * ((doc_tokens * embedding_dim) as int),
                        doc_tokens as nat,
                        embedding_dim as nat,
                    ),
                ),
    {
        self.uniform_impl(
            query_flat,
            query_tokens,
            doc_flat,
            num_docs,
            doc_tokens,
            embedding_dim,
            Aggregate::Sum,
        )
    }

    /// MaxSim scores for a uniform-length collection, averaged over the
    /// query length, in the collection's own order.
    pub fn maxsim_batch_uniform_normalized(
        &mut self,
        query_flat: &Vec<i64>,
        query_tokens: usize,
        doc_flat: &Vec<i64>,
        num_docs: usize,
        doc_tokens: usize,
        embedding_dim: usize,
    ) -> (r: Vec<i64>)
        requires
            old(self).wf(),
            query_tokens <= MAX_TOKENS,
            doc_tokens <= MAX_TOKENS,
            embedding_dim <= MAX_DIM,
            query_flat.len() == query_tokens * embedding_dim,
            doc_flat.len() == num_docs * (doc_tokens * embedding_dim),
            vals_bounded(query_flat@),
            vals_bounded(doc_flat@),
        ensures
            final(self).wf(),
            final(self).mode_s() == old(self).mode_s(),
            final(self).store_unchanged(old(self)),
            r.len() == num_docs,
            forall|d: int|
                0 <= d < num_docs ==> #[trigger] r@[d] as int == crate::model::maxsim_score_s(
                    old(self).mode_s(),
                    Aggregate::Mean,
                    crate::model::tokens_of(query_flat@, query_tokens as nat, embedding_dim as nat),
                    crate::model::doc_tokens(
                        doc_flat@,
                        d * ((doc_tokens * embedding_dim) as int),
                        doc_tokens as nat,
                        embedding_dim as nat,
                    ),
                ),
    {
        self.uniform_impl(
            query_flat,
            query_tokens,
            doc_flat,
            num_docs,
            doc_tokens,
            embedding_dim,
            Aggregate::Mean,
        )
    }

    /// Borrowed-view batch scoring, raw sum: the zero-copy contract is
    /// an immutable view over caller-owned memory, valid only for the
    /// call's duration and never retained.
    pub fn maxsim_batch_zero_copy(
        &mut self,
        query_flat: &Vec<i64>,
        query_tokens: usize,
        doc_flat: &Vec<i64>,
        doc_tokens: &Vec<usize>,
        embedding_dim: usize,
    ) -> (r: Vec<i64>)
        requires
            old(self).wf(),
            query_tokens <= MAX_TOKENS,
            embedding_dim <= MAX_DIM,
            query_flat.len() == query_tokens * embedding_dim,
            lens_bounded(doc_tokens@),
            doc_flat.len() as int == total_size_s(doc_tokens@, embedding_dim as nat),
            vals_bounded(query_flat@),
            vals_bounded(doc_flat@),
        ensures
            final(self).wf(),
            final(self).mode_s() == old(self).mode_s(),
            final(self).store_unchanged(old(self)),
            r.len() == doc_tokens.len(),
            forall|k: int|
                0 <= k < doc_tokens.len() ==> #[trigger] r@[k] as int == batch_doc_score_s(
                    old(self).mode_s(),
                    Aggregate::Sum,
                    query_flat@,
                    query_tokens as nat,
                    doc_flat@,
                    doc_tokens@,
                    embedding_dim as nat,
                    k,
                ),
    {
        self.maxsim_batch(query_flat, query_tokens, doc_flat, doc_tokens, embedding_dim)
    }

    /// Borrowed-view batch scoring, averaged over the query length.
    pub fn maxsim_batch_zero_copy_normalized(
        &mut self,
        query_flat: &Vec<i64>,
        query_tokens: usize,
        doc_flat: &Vec<i64>,
        doc_tokens: &Vec<usize>,
        embedding_dim: usize,
    ) -> (r: Vec<i64>)
        requires
            old(self).wf(),
            query_tokens <= MAX_TOKENS,
            embedding_dim <= MAX_DIM,
            query_flat.len() == query_tokens * embedding_dim,
            lens_bounded(doc_tokens@),
            doc_flat.len() as int == total_size_s(doc_tokens@, embedding_dim as nat),
            vals_bounded(query_flat@),
            vals_bounded(doc_flat@),
        ensures
            final(self).wf(),
            final(self).mode_s() == old(self).mode_s(),
            final(self).store_unchanged(old(self)),
            r.len() == doc_tokens.len(),
            forall|k: int|
                0 <= k < doc_tokens.len() ==> #[trigger] r@[k] as int == batch_doc_score_s(
                    old(self).mode_s(),
                    Aggregate::Mean,
                    query_flat@,
                    query_tokens as nat,
                    doc_flat@,
                    doc_tokens@,
                    embedding_dim as nat,
                    k,
                ),
    {
        self.maxsim_batch_normalized(query_flat, query_tokens, doc_flat, doc_tokens, embedding_dim)
    }

    /// Load a document collection into the engine.  On success the new
    /// collection atomically replaces any previous one; on any error the
    /// previous collection is left untouched.  Fails with `EmptyInput`
    /// when there are no documents, `InvalidDimension` when the dimension
    /// is zero, and `SizeMismatch` exactly when the flat buffer's length
    /// is not the sum of `length * dim` over the documents.
    pub fn load_documents(
        &mut self,
        embeddings_data: &Vec<i64>,
        doc_tokens: &Vec<usize>,
        embedding_dim: usize,
    ) -> (r: Result<(), MaxSimError>)
        requires
            old(self).wf(),
            embedding_dim <= MAX_DIM,
            lens_bounded(doc_tokens@),
            vals_bounded(embeddings_data@),
        ensures
            final(self).wf(),
            final(self).mode_s() == old(self).mode_s(),
            r is Ok <==> (doc_tokens.len() >= 1 && embedding_dim >= 1
                && embeddings_data.len() as int == total_size_s(
                doc_tokens@,
                embedding_dim as nat,
            )),
            match r {
                Result::Ok(_) => final(self).docs_loaded() && final(self).docs_flat()
                    == embeddings_data@ && final(self).docs_lens() == doc_tokens@ && final(self).docs_dim() == embedding_dim as nat,
                Result::Err(e) => final(self).store_unchanged(old(self)) && (e
                    == MaxSimError::EmptyInput <==> doc_tokens.len() == 0) && (e
                    == MaxSimError::InvalidDimension <==> doc_tokens.len() >= 1 && embedding_dim
                    == 0) && (e == MaxSimError::SizeMismatch <==> doc_tokens.len() >= 1
                    && embedding_dim >= 1 && embeddings_data.len() as int != total_size_s(
                    doc_tokens@,
                    embedding_dim as nat,
                )),
            },
    {
        if doc_tokens.len() == 0 {
            return Result::Err(MaxSimError::EmptyInput);
        }
        if embedding_dim == 0 {
            return Result::Err(MaxSimError::InvalidDimension);
        }
        let n = doc_tokens.len();
        let mut expected: usize = 0;
        let mut i: usize = 0;
        while i < n
            invariant
                0 <= i <= n,
                n == doc_tokens.len(),
                n >= 1,
                embedding_dim >= 1,
                lens_bounded(doc_tokens@),
                embedding_dim <= MAX_DIM,
                expected as int == offset_of(doc_tokens@, embedding_dim as nat, i as int),
                self.wf(),
                self.mode_s() == old(self).mode_s(),
                self.store_unchanged(old(self)),
            decreases n - i,
        {
            proof {
                assert(doc_tokens@[i as int] * embedding_dim <= MAX_TOKENS * MAX_DIM)
                    by (nonlinear_arith)
                    requires
                        doc_tokens@[i as int] <= MAX_TOKENS,
                        embedding_dim <= MAX_DIM,
                        doc_tokens@[i as int] >= 0,
                        embedding_dim >= 0,
                ;
            }
            let step: usize = doc_tokens[i] * embedding_dim;
            if usize::MAX - expected < step {
                // The true total exceeds the address space, so no buffer
                // can match it: the declared sizes are inconsistent.
                proof {
                    lemma_offset_mono(
                        doc_tokens@,
                        embedding_dim as nat,
                        i as int + 1,
                        n as int,
                    );
                    assert(offset_of(doc_tokens@, embedding_dim as nat, i as int + 1) == expected
                        as int + doc_tokens@[i as int] * embedding_dim);
                    assert(total_size_s(doc_tokens@, embedding_dim as nat) > usize::MAX as int);
                    assert(embeddings_data.len() <= usize::MAX);
                }
                return Result::Err(MaxSimError::SizeMismatch);
            }
            expected = expected + step;
            i = i + 1;
        }
        if embeddings_data.len() != expected {
            return Result::Err(MaxSimError::SizeMismatch);
        }
        let flat = clone_vals(embeddings_data);
        let lens = clone_lens(doc_tokens);
        self.documents = Option::Some(
            PreloadedDocuments {
                embeddings_flat: flat,
                doc_tokens: lens,
                embedding_dim,
            },
        );
        Result::Ok(())
    }

    /// Score the query against the loaded collection, raw sum.  Fails
    /// with `NotLoaded` before any load, `EmptyInput` on an empty query,
    /// and `SizeMismatch` when the query buffer does not hold exactly
    /// `query_tokens * dim` components.
    pub fn search_preloaded(
        &mut self,
        query_flat: &Vec<i64>,
        query_tokens: usize,
    ) -> (r: Result<Vec<i64>, MaxSimError>)
        requires
            old(self).wf(),
            query_tokens <= MAX_TOKENS,
            vals_bounded(query_flat@),
        ensures
            final(self).wf(),
            final(self).mode_s() == old(self).mode_s(),
            final(self).store_unchanged(old(self)),
            r is Ok <==> (old(self).docs_loaded() && query_tokens >= 1 && query_flat.len() as int
                == query_tokens * old(self).docs_dim()),
            match r {
                Result::Ok(scores) => old(self).docs_loaded() && query_tokens >= 1
                    && query_flat.len() as int == query_tokens * old(self).docs_dim()
                    && scores.len() == old(self).docs_lens().len() && forall|k: int|
                    0 <= k < old(self).docs_lens().len() ==> #[trigger] scores@[k] as int
                        == batch_doc_score_s(
                        old(self).mode_s(),
                        Aggregate::Sum,
                        query_flat@,
                        query_tokens as nat,
                        old(self).docs_flat(),
                        old(self).docs_lens(),
                        old(self).docs_dim(),
                        k,
                    ),
                Result::Err(e) => (e == MaxSimError::NotLoaded <==> !old(self).docs_loaded()) && (e
                    == MaxSimError::EmptyInput <==> old(self).docs_loaded() && query_tokens == 0)
                    && (e == MaxSimError::SizeMismatch <==> old(self).docs_loaded()
                    && query_tokens >= 1 && query_flat.len() as int != query_tokens * old(self).docs_dim()),
            },
    {
        self.search_impl(query_flat, query_tokens, Aggregate::Sum)
    }

    /// Score the query against the loaded collection, averaged over the
    /// query length; the same errors as the raw-sum search.
    pub fn search_preloaded_normalized(
        &mut self,
        query_flat: &Vec<i64>,
        query_tokens: usize,
    ) -> (r: Result<Vec<i64>, MaxSimError>)
        requires
            old(self).wf(),
            query_tokens <= MAX_TOKENS,
            vals_bounded(query_flat@),
        ensures
            final(self).wf(),
            final(self).mode_s() == old(self).mode_s(),
            final(self).store_unchanged(old(self)),
            r is Ok <==> (old(self).docs_loaded() && query_tokens >= 1 && query_flat.len() as int
                == query_tokens * old(self).docs_dim()),
            match r {
                Result::Ok(scores) => old(self).docs_loaded() && query_tokens >= 1
                    && query_flat.len() as int == query_tokens * old(self).docs_dim()
                    && scores.len() == old(self).docs_lens().len() && forall|k: int|
                    0 <= k < old(self).docs_lens().len() ==> #[trigger] scores@[k] as int
                        == batch_doc_score_s(
                        old(self).mode_s(),
                        Aggregate::Mean,
                        query_flat@,
                        query_tokens as nat,
                        old(self).docs_flat(),
                        old(self).docs_lens(),
                        old(self).docs_dim(),
                        k,
                    ),
                Result::Err(e) => (e == MaxSimError::NotLoaded <==> !old(self).docs_loaded()) && (e
                    == MaxSimError::EmptyInput <==> old(self).docs_loaded() && query_tokens == 0)
                    && (e == MaxSimError::SizeMismatch <==> old(self).docs_loaded()
                    && query_tokens >= 1 && query_flat.len() as int != query_tokens * old(self).docs_dim()),
            },
    {
        self.search_impl(query_flat, query_tokens, Aggregate::Mean)
    }

    /// Shared implementation of the two search entry points.
    fn search_impl(
        &mut self,
        query_flat: &Vec<i64>,
        query_tokens: usize,
        agg: Aggregate,
    ) -> (r: Result<Vec<i64>, MaxSimError>)
        requires
            old(self).wf(),
            query_tokens <= MAX_TOKENS,
            vals_bounded(query_flat@),
        ensures
            final(self).wf(),
            final(self).mode_s() == old(self).mode_s(),
            final(self).store_unchanged(old(self)),
            r is Ok <==> (old(self).docs_loaded() && query_tokens >= 1 && query_flat.len() as int
                == query_tokens * old(self).docs_dim()),
            match r {
                Result::Ok(scores) => old(self).docs_loaded() && query_tokens >= 1
                    && query_flat.len() as int == query_tokens * old(self).docs_dim()
                    && scores.len() == old(self).docs_lens().len() && forall|k: int|
                    0 <= k < old(self).docs_lens().len() ==> #[trigger] scores@[k] as int
                        == batch_doc_score_s(
                        old(self).mode_s(),
                        agg,
                        query_flat@,
                        query_tokens as nat,
                        old(self).docs_flat(),
                        old(self).docs_lens(),
                        old(self).docs_dim(),
                        k,
                    ),
                Result::Err(e) => (e == MaxSimError::NotLoaded <==> !old(self).docs_loaded()) && (e
                    == MaxSimError::EmptyInput <==> old(self).docs_loaded() && query_tokens == 0)
                    && (e == MaxSimError::SizeMismatch <==> old(self).docs_loaded()
                    && query_tokens >= 1 && query_flat.len() as int != query_tokens * old(self).docs_dim()),
            },
    {
        let mode = self.mode;
        match &self.documents {
            Option::None => Result::Err(MaxSimError::NotLoaded),
            Option::Some(d) => {
                if query_tokens == 0 {
                    return Result::Err(MaxSimError::EmptyInput);
                }
                proof {
                    assert(query_tokens * d.embedding_dim <= MAX_TOKENS * MAX_DIM)
                        by (nonlinear_arith)
                        requires
                            query_tokens <= MAX_TOKENS,
                            d.embedding_dim <= MAX_DIM,
                            query_tokens >= 0,
                            d.embedding_dim >= 0,
                    ;
                }
                if query_flat.len() != query_tokens * d.embedding_dim {
                    return Result::Err(MaxSimError::SizeMismatch);
                }
                let scores = score_batch(
                    &mut self.similarity_buffer,
                    &mut self.batch_buffer,
                    mode,
                    agg,
                    query_flat,
                    query_tokens,
                    &d.embeddings_flat,
                    &d.doc_tokens,
                    d.embedding_dim,
                );
                Result::Ok(scores)
            },
        }
    }
}

} // verus!
