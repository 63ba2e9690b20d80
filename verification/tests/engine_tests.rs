use maxsim::{MaxSimError, MaxSimWasm, SimilarityMode, SIM_SCALE};

#[test]
fn test_dot_product() {
    let a = vec![1, 2, 3, 4];
    let b = vec![2, 3, 4, 5];
    let result = maxsim::dot_product(&a, &b);
    assert_eq!(result, 40);
}

#[test]
fn test_maxsim_single_official() {
    let mut maxsim = MaxSimWasm::new();
    let query = vec![1, 0, 0, 0, 1, 0];
    let doc = vec![1, 0, 0, 0, 1, 0, 0, 0, 1];
    let score = maxsim.maxsim_single(&query, 2, &doc, 3, 3);
    // Official MaxSim: raw sum, should be >= 0
    assert!(score >= 0);
}

#[test]
fn test_maxsim_single_normalized() {
    let mut maxsim = MaxSimWasm::new();
    let query = vec![1, 0, 0, 0, 1, 0];
    let doc = vec![1, 0, 0, 0, 1, 0, 0, 0, 1];
    let score = maxsim.maxsim_single_normalized(&query, 2, &doc, 3, 3);
    // Normalized MaxSim: averaged, should be between -1 and 1 units
    assert!(score >= -1 && score <= 1);
}

#[test]
fn test_single_exact_scores() {
    // dim=3, query [[1,0,0],[0,1,0]], doc [[1,0,0],[0,1,0],[0,0,1]]:
    // similarity matrix [[1,0,0],[0,1,0]], row maxima [1,1].
    let mut maxsim = MaxSimWasm::new();
    let query = vec![1, 0, 0, 0, 1, 0];
    let doc = vec![1, 0, 0, 0, 1, 0, 0, 0, 1];
    assert_eq!(maxsim.maxsim_single(&query, 2, &doc, 3, 3), 2);
    assert_eq!(maxsim.maxsim_single_normalized(&query, 2, &doc, 3, 3), 1);
}

#[test]
fn test_empty_document_scores_zero() {
    let mut maxsim = MaxSimWasm::new();
    let query = vec![1, 0, 0, 0, 1, 0];
    let doc: Vec<i64> = vec![];
    assert_eq!(maxsim.maxsim_single(&query, 2, &doc, 0, 3), 0);
    assert_eq!(maxsim.maxsim_single_normalized(&query, 2, &doc, 0, 3), 0);
}

#[test]
fn test_empty_query_scores_zero() {
    let mut maxsim = MaxSimWasm::new();
    let query: Vec<i64> = vec![];
    let doc = vec![1, 0, 0, 0, 1, 0];
    assert_eq!(maxsim.maxsim_single(&query, 0, &doc, 2, 3), 0);
    assert_eq!(maxsim.maxsim_single_normalized(&query, 0, &doc, 2, 3), 0);
}

#[test]
fn test_mean_truncates_toward_zero() {
    let mut maxsim = MaxSimWasm::new();
    // Row maxima 2 and 1: sum 3, mean 3/2 truncated to 1.
    let query = vec![1, 1, 1, 0];
    let doc = vec![1, 1];
    assert_eq!(maxsim.maxsim_single(&query, 2, &doc, 1, 2), 3);
    assert_eq!(maxsim.maxsim_single_normalized(&query, 2, &doc, 1, 2), 1);
    // Row maxima -1 and -2: sum -3, mean -3/2 truncated to -1, not -2.
    let query_neg = vec![1, 0, 2, 0];
    let doc_neg = vec![-1, 0];
    assert_eq!(maxsim.maxsim_single(&query_neg, 2, &doc_neg, 1, 2), -3);
    assert_eq!(maxsim.maxsim_single_normalized(&query_neg, 2, &doc_neg, 1, 2), -1);
}

#[test]
fn test_cosine_identical_direction() {
    let mut maxsim = MaxSimWasm::new_with_mode(SimilarityMode::Cosine);
    // [3,4] and [6,8] point the same way: cosine exactly 1.0.
    let query = vec![3, 4];
    let doc = vec![6, 8];
    assert_eq!(maxsim.maxsim_single(&query, 1, &doc, 1, 2), SIM_SCALE);
}

#[test]
fn test_cosine_opposite_direction() {
    let mut maxsim = MaxSimWasm::new_with_mode(SimilarityMode::Cosine);
    let query = vec![3, 4];
    let doc = vec![-3, -4];
    assert_eq!(maxsim.maxsim_single(&query, 1, &doc, 1, 2), -SIM_SCALE);
}

#[test]
fn test_cosine_orthogonal_and_zero_norm() {
    let mut maxsim = MaxSimWasm::new_with_mode(SimilarityMode::Cosine);
    let query = vec![5, 0];
    let orthogonal = vec![0, 7];
    assert_eq!(maxsim.maxsim_single(&query, 1, &orthogonal, 1, 2), 0);
    // A zero-norm token yields similarity 0, not a division error.
    let zero = vec![0, 0];
    assert_eq!(maxsim.maxsim_single(&query, 1, &zero, 1, 2), 0);
}

#[test]
fn test_cosine_clamped_to_unit() {
    let mut maxsim = MaxSimWasm::new_with_mode(SimilarityMode::Cosine);
    // dot([1,1],[1,1]) = 2, floor(sqrt(2)) = 1 on both sides, so the raw
    // quotient overshoots the unit and is clamped to exactly 1.0.
    let query = vec![1, 1];
    let doc = vec![1, 1];
    assert_eq!(maxsim.maxsim_single(&query, 1, &doc, 1, 2), SIM_SCALE);
}

#[test]
fn test_dot_mode_differs_from_cosine_on_unnormalized() {
    let query = vec![2, 0];
    let doc = vec![4, 0];
    let mut dot_engine = MaxSimWasm::new();
    let mut cos_engine = MaxSimWasm::new_with_mode(SimilarityMode::Cosine);
    assert_eq!(dot_engine.maxsim_single(&query, 1, &doc, 1, 2), 8);
    assert_eq!(cos_engine.maxsim_single(&query, 1, &doc, 1, 2), SIM_SCALE);
}

#[test]
fn test_get_info_mentions_engine() {
    let maxsim = MaxSimWasm::new();
    let info = maxsim.get_info();
    assert!(info.contains("MaxSim"));
    assert!(info.contains("buffer_reuse"));
}

#[test]
fn test_error_messages() {
    assert_eq!(MaxSimError::NotLoaded.message(), "no documents loaded");
    assert_eq!(MaxSimError::SizeMismatch.message(), "embeddings data size mismatch");
    assert_eq!(MaxSimError::EmptyInput.message(), "input must not be empty");
    assert_eq!(
        MaxSimError::InvalidDimension.message(),
        "embedding dimension must be > 0"
    );
}
