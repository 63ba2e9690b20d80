use maxsim::MaxSimWasm;

// One deterministic token component, small enough to stay well inside
// the engine's component bounds.
fn component(doc: usize, token: usize, k: usize) -> i64 {
    (((doc * 31 + token * 7 + k * 3) % 19) as i64) - 9
}

fn make_doc(doc: usize, len: usize, dim: usize) -> Vec<i64> {
    let mut v = Vec::new();
    for t in 0..len {
        for k in 0..dim {
            v.push(component(doc, t, k));
        }
    }
    v
}

fn make_collection(lens: &[usize], dim: usize) -> Vec<i64> {
    let mut flat = Vec::new();
    for (d, &len) in lens.iter().enumerate() {
        flat.extend_from_slice(&make_doc(d, len, dim));
    }
    flat
}

#[test]
fn test_batch_order_matches_input_order() {
    // Deliberately unsorted lengths: the scheduler sorts internally but
    // must write every score back at the document's original position.
    let dim = 4;
    let lens = vec![5usize, 2, 9, 1, 7, 3];
    let flat = make_collection(&lens, dim);
    let query = make_doc(99, 3, dim);
    let mut engine = MaxSimWasm::new();
    let scores = engine.maxsim_batch(&query, 3, &flat, &lens, dim);
    assert_eq!(scores.len(), lens.len());
    let mut single = MaxSimWasm::new();
    for (d, &len) in lens.iter().enumerate() {
        let doc = make_doc(d, len, dim);
        let expected = single.maxsim_single(&query, 3, &doc, len, dim);
        assert_eq!(scores[d], expected);
    }
}

#[test]
fn test_batch_grouped_path_matches_single() {
    // A run of at least four similar lengths exercises the zero-padded
    // sub-batch path; the outliers go through the individual path.
    let dim = 3;
    let lens = vec![10usize, 11, 10, 12, 11, 10, 40, 2];
    let flat = make_collection(&lens, dim);
    let query = make_doc(7, 4, dim);
    let mut engine = MaxSimWasm::new();
    let scores = engine.maxsim_batch(&query, 4, &flat, &lens, dim);
    let mut single = MaxSimWasm::new();
    for (d, &len) in lens.iter().enumerate() {
        let doc = make_doc(d, len, dim);
        assert_eq!(scores[d], single.maxsim_single(&query, 4, &doc, len, dim));
    }
}

#[test]
fn test_batch_uniform_fast_path_matches_single() {
    // 60 documents with lengths within 10% of 100: variance stays under
    // the 1.2 threshold and the count is at least 50, so the uniform
    // fast path runs; scores must still equal score-by-score results,
    // in original order.
    let dim = 3;
    let mut lens = Vec::new();
    for d in 0..60usize {
        lens.push(95 + (d % 11));
    }
    let flat = make_collection(&lens, dim);
    let query = make_doc(42, 5, dim);
    let mut engine = MaxSimWasm::new();
    let scores = engine.maxsim_batch(&query, 5, &flat, &lens, dim);
    assert_eq!(scores.len(), 60);
    let mut single = MaxSimWasm::new();
    for (d, &len) in lens.iter().enumerate() {
        let doc = make_doc(d, len, dim);
        assert_eq!(scores[d], single.maxsim_single(&query, 5, &doc, len, dim));
    }
}

#[test]
fn test_batch_empty_document_degrades_only_itself() {
    let dim = 2;
    let lens = vec![3usize, 0, 4];
    let flat = make_collection(&lens, dim);
    let query = make_doc(5, 2, dim);
    let mut engine = MaxSimWasm::new();
    let scores = engine.maxsim_batch(&query, 2, &flat, &lens, dim);
    assert_eq!(scores[1], 0);
    let mut single = MaxSimWasm::new();
    let doc0 = make_doc(0, 3, dim);
    let doc2 = make_doc(2, 4, dim);
    assert_eq!(scores[0], single.maxsim_single(&query, 2, &doc0, 3, dim));
    assert_eq!(scores[2], single.maxsim_single(&query, 2, &doc2, 4, dim));
}

#[test]
fn test_batch_empty_query_gives_zeros() {
    let dim = 2;
    let lens = vec![3usize, 4];
    let flat = make_collection(&lens, dim);
    let query: Vec<i64> = vec![];
    let mut engine = MaxSimWasm::new();
    let scores = engine.maxsim_batch(&query, 0, &flat, &lens, dim);
    assert_eq!(scores, vec![0, 0]);
}

#[test]
fn test_batch_normalized_is_mean_of_sum() {
    let dim = 3;
    let lens = vec![6usize, 2, 8];
    let flat = make_collection(&lens, dim);
    let query = make_doc(11, 4, dim);
    let mut engine = MaxSimWasm::new();
    let sums = engine.maxsim_batch(&query, 4, &flat, &lens, dim);
    let means = engine.maxsim_batch_normalized(&query, 4, &flat, &lens, dim);
    for d in 0..lens.len() {
        // Truncating division toward zero, query length 4.
        let expected = if sums[d] >= 0 { sums[d] / 4 } else { -((-sums[d]) / 4) };
        assert_eq!(means[d], expected);
    }
}

#[test]
fn test_batch_uniform_entry_point() {
    let dim = 3;
    let num_docs = 5usize;
    let len = 6usize;
    let lens = vec![len; num_docs];
    let flat = make_collection(&lens, dim);
    let query = make_doc(3, 2, dim);
    let mut engine = MaxSimWasm::new();
    let uniform = engine.maxsim_batch_uniform(&query, 2, &flat, num_docs, len, dim);
    let uniform_mean =
        engine.maxsim_batch_uniform_normalized(&query, 2, &flat, num_docs, len, dim);
    let general = engine.maxsim_batch(&query, 2, &flat, &lens, dim);
    let general_mean = engine.maxsim_batch_normalized(&query, 2, &flat, &lens, dim);
    assert_eq!(uniform, general);
    assert_eq!(uniform_mean, general_mean);
}

#[test]
fn test_batch_uniform_degenerate() {
    let mut engine = MaxSimWasm::new();
    let query = vec![1, 0];
    let empty: Vec<i64> = vec![];
    assert_eq!(engine.maxsim_batch_uniform(&query, 1, &empty, 3, 0, 2), vec![0, 0, 0]);
    assert_eq!(engine.maxsim_batch_uniform(&query, 1, &empty, 0, 4, 2), Vec::<i64>::new());
}

#[test]
fn test_zero_copy_matches_batch() {
    let dim = 2;
    let lens = vec![4usize, 1, 6];
    let flat = make_collection(&lens, dim);
    let query = make_doc(8, 3, dim);
    let mut engine = MaxSimWasm::new();
    let a = engine.maxsim_batch(&query, 3, &flat, &lens, dim);
    let b = engine.maxsim_batch_zero_copy(&query, 3, &flat, &lens, dim);
    let c = engine.maxsim_batch_normalized(&query, 3, &flat, &lens, dim);
    let d = engine.maxsim_batch_zero_copy_normalized(&query, 3, &flat, &lens, dim);
    assert_eq!(a, b);
    assert_eq!(c, d);
}

#[test]
fn test_perfect_match_property_concrete() {
    // Every query token appears among the document tokens and all tokens
    // share one squared norm: each row maximum is that norm, the sum is
    // query_len times it, and the mean is exactly it.
    let dim = 3;
    let doc = vec![1, 0, 0, 0, 1, 0, 0, 0, 1];
    let query = vec![0, 1, 0, 0, 0, 1];
    let mut engine = MaxSimWasm::new();
    assert_eq!(engine.maxsim_single(&query, 2, &doc, 3, dim), 2);
    assert_eq!(engine.maxsim_single_normalized(&query, 2, &doc, 3, dim), 1);
}

#[test]
fn test_buffer_reuse_across_calls() {
    // Back-to-back calls of very different shapes must not leak stale
    // buffer contents into later scores.
    let dim = 3;
    let big_lens = vec![30usize; 8];
    let big_flat = make_collection(&big_lens, dim);
    let query = make_doc(1, 4, dim);
    let mut engine = MaxSimWasm::new();
    let _ = engine.maxsim_batch(&query, 4, &big_flat, &big_lens, dim);
    let small_lens = vec![2usize, 3];
    let small_flat = make_collection(&small_lens, dim);
    let scores = engine.maxsim_batch(&query, 4, &small_flat, &small_lens, dim);
    let mut fresh = MaxSimWasm::new();
    let expected = fresh.maxsim_batch(&query, 4, &small_flat, &small_lens, dim);
    assert_eq!(scores, expected);
}

#[test]
fn test_batch_large_group_multiple_sub_batches() {
    // Twenty equal-length documents stay under the fast-path count but
    // form one tolerance run longer than a single 16-document sub-batch.
    let dim = 3;
    let lens = vec![12usize; 20];
    let flat = make_collection(&lens, dim);
    let query = make_doc(77, 3, dim);
    let mut engine = MaxSimWasm::new();
    let scores = engine.maxsim_batch(&query, 3, &flat, &lens, dim);
    let mut single = MaxSimWasm::new();
    for (d, &len) in lens.iter().enumerate() {
        let doc = make_doc(d, len, dim);
        assert_eq!(scores[d], single.maxsim_single(&query, 3, &doc, len, dim));
    }
}

#[test]
fn test_batch_cosine_mode_matches_single() {
    let dim = 3;
    let lens = vec![4usize, 7, 1, 5, 6, 5];
    let flat = make_collection(&lens, dim);
    let query = make_doc(13, 2, dim);
    let mut engine = maxsim::MaxSimWasm::new_with_mode(maxsim::SimilarityMode::Cosine);
    let scores = engine.maxsim_batch(&query, 2, &flat, &lens, dim);
    let mut single = maxsim::MaxSimWasm::new_with_mode(maxsim::SimilarityMode::Cosine);
    for (d, &len) in lens.iter().enumerate() {
        let doc = make_doc(d, len, dim);
        assert_eq!(scores[d], single.maxsim_single(&query, 2, &doc, len, dim));
    }
}
