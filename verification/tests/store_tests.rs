use maxsim::{MaxSimError, MaxSimWasm};

fn sample_collection() -> (Vec<i64>, Vec<usize>, usize) {
    let dim = 2usize;
    let lens = vec![2usize, 1, 3];
    // 2 + 1 + 3 = 6 tokens of 2 components each.
    let flat = vec![1, 0, 0, 1, 2, 2, -1, 0, 0, -1, 1, 1];
    (flat, lens, dim)
}

#[test]
fn test_search_before_load_fails() {
    let mut engine = MaxSimWasm::new();
    let query = vec![1, 0];
    assert_eq!(engine.search_preloaded(&query, 1), Err(MaxSimError::NotLoaded));
    assert_eq!(
        engine.search_preloaded_normalized(&query, 1),
        Err(MaxSimError::NotLoaded)
    );
}

#[test]
fn test_load_validation_errors() {
    let mut engine = MaxSimWasm::new();
    let (flat, lens, dim) = sample_collection();
    let no_lens: Vec<usize> = vec![];
    assert_eq!(
        engine.load_documents(&flat, &no_lens, dim),
        Err(MaxSimError::EmptyInput)
    );
    assert_eq!(
        engine.load_documents(&flat, &lens, 0),
        Err(MaxSimError::InvalidDimension)
    );
    let short = vec![1, 0, 0, 1];
    assert_eq!(
        engine.load_documents(&short, &lens, dim),
        Err(MaxSimError::SizeMismatch)
    );
    assert_eq!(engine.num_documents_loaded(), 0);
}

#[test]
fn test_load_and_search_matches_batch() {
    let mut engine = MaxSimWasm::new();
    let (flat, lens, dim) = sample_collection();
    assert_eq!(engine.load_documents(&flat, &lens, dim), Ok(()));
    assert_eq!(engine.num_documents_loaded(), 3);
    let query = vec![1, 0, 0, 1];
    let searched = engine.search_preloaded(&query, 2).unwrap();
    let searched_mean = engine.search_preloaded_normalized(&query, 2).unwrap();
    let mut fresh = MaxSimWasm::new();
    let batch = fresh.maxsim_batch(&query, 2, &flat, &lens, dim);
    let batch_mean = fresh.maxsim_batch_normalized(&query, 2, &flat, &lens, dim);
    assert_eq!(searched, batch);
    assert_eq!(searched_mean, batch_mean);
}

#[test]
fn test_search_query_validation() {
    let mut engine = MaxSimWasm::new();
    let (flat, lens, dim) = sample_collection();
    assert_eq!(engine.load_documents(&flat, &lens, dim), Ok(()));
    let query = vec![1, 0, 0, 1];
    assert_eq!(engine.search_preloaded(&query, 0), Err(MaxSimError::EmptyInput));
    // Three declared tokens at dim 2 would need six components.
    assert_eq!(engine.search_preloaded(&query, 3), Err(MaxSimError::SizeMismatch));
}

#[test]
fn test_failed_load_keeps_previous_collection() {
    let mut engine = MaxSimWasm::new();
    let (flat, lens, dim) = sample_collection();
    assert_eq!(engine.load_documents(&flat, &lens, dim), Ok(()));
    let query = vec![1, 0];
    let before = engine.search_preloaded(&query, 1).unwrap();

    // A load whose flat buffer does not match the declared sizes fails
    // with SizeMismatch and must leave the old collection intact.
    let bad_flat = vec![1, 2, 3];
    let bad_lens = vec![5usize, 5];
    assert_eq!(
        engine.load_documents(&bad_flat, &bad_lens, dim),
        Err(MaxSimError::SizeMismatch)
    );
    assert_eq!(engine.num_documents_loaded(), 3);
    let after = engine.search_preloaded(&query, 1).unwrap();
    assert_eq!(before, after);
}

#[test]
fn test_successful_load_replaces_collection() {
    let mut engine = MaxSimWasm::new();
    let (flat, lens, dim) = sample_collection();
    assert_eq!(engine.load_documents(&flat, &lens, dim), Ok(()));
    let new_flat = vec![3, 3];
    let new_lens = vec![1usize];
    assert_eq!(engine.load_documents(&new_flat, &new_lens, dim), Ok(()));
    assert_eq!(engine.num_documents_loaded(), 1);
    let query = vec![1, 1];
    let scores = engine.search_preloaded(&query, 1).unwrap();
    assert_eq!(scores, vec![6]);
}
