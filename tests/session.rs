use levenshtein_with_gpu::{
    decode_words, readback_matrix, words_to_bytes, upper_triangle, LevenshteinError, PairDistance, SessionLayout, WORDS_PADDING,
};

#[test]
fn layout_sizes_regions_for_capacity() {
    let layout = SessionLayout::new(10).unwrap();
    assert_eq!(layout.capacity(), 10);
    assert_eq!(layout.input_bytes(), (10 * WORDS_PADDING * 4) as u64);
    assert_eq!(layout.output_bytes(), 400);
}

#[test]
fn layout_too_large_to_address_is_refused() {
    assert!(SessionLayout::new(usize::MAX).is_none());
    assert!(SessionLayout::new(1 << 31).is_none());
    assert!(SessionLayout::new((1 << 31) - 1).is_some());
}

#[test]
fn batch_within_capacity_is_planned() {
    let layout = SessionLayout::new(100).unwrap();
    let plan = layout.plan(&["kitten", "sitting", "kill"]).unwrap();
    assert_eq!(plan.word_count, 3);
    assert_eq!(plan.codes.len(), 3 * WORDS_PADDING);
    assert_eq!(plan.codes[0], 'k' as u32 + 1);
    assert_eq!(plan.codes[6], 0);
    assert_eq!(plan.workgroups, 1);
    assert_eq!(plan.input_bytes, (3 * WORDS_PADDING * 4) as u64);
    assert_eq!(plan.matrix_bytes, 36);
}

#[test]
fn workgroups_round_up() {
    let layout = SessionLayout::new(200).unwrap();
    let words64: Vec<&str> = vec!["w"; 64];
    let words65: Vec<&str> = vec!["w"; 65];
    let none: Vec<&str> = Vec::new();
    assert_eq!(layout.plan(&words64).unwrap().workgroups, 1);
    assert_eq!(layout.plan(&words65).unwrap().workgroups, 2);
    assert_eq!(layout.plan(&none).unwrap().workgroups, 0);
}

#[test]
fn batch_beyond_capacity_is_refused() {
    let layout = SessionLayout::new(2).unwrap();
    assert!(layout.ensure_capacity(2).is_ok());
    assert_eq!(
        layout.ensure_capacity(3),
        Err(LevenshteinError::CapacityExceeded { requested: 3, capacity: 2 })
    );
    let result = layout.plan(&["a", "b", "c"]);
    assert_eq!(
        result.err(),
        Some(LevenshteinError::CapacityExceeded { requested: 3, capacity: 2 })
    );
}

#[test]
fn plan_rejects_long_word() {
    let layout = SessionLayout::new(4).unwrap();
    let long = "x".repeat(WORDS_PADDING + 5);
    let result = layout.plan(&["ok", long.as_str()]);
    assert_eq!(result.err(), Some(LevenshteinError::WordTooLong { index: 1 }));
}

#[test]
fn failed_mapping_is_a_failed_transfer() {
    assert_eq!(readback_matrix(2, None), Err(LevenshteinError::TransferFailed));
}

#[test]
fn short_readback_is_a_failed_transfer() {
    assert_eq!(readback_matrix(2, Some(vec![0, 1, 1])), Err(LevenshteinError::TransferFailed));
}

#[test]
fn readback_keeps_the_matrix_only() {
    assert_eq!(readback_matrix(2, Some(vec![0, 3, 3, 0, 8, 8])), Ok(vec![0, 3, 3, 0]));
    assert_eq!(readback_matrix(0, Some(vec![5])), Ok(vec![]));
}

#[test]
fn upper_triangle_lists_pairs_in_order() {
    let d = vec![0, 4, 7, 4, 0, 6, 7, 6, 0];
    let pairs = upper_triangle(3, &d);
    assert_eq!(
        pairs,
        vec![
            PairDistance { first: 0, second: 1, distance: 4 },
            PairDistance { first: 0, second: 2, distance: 7 },
            PairDistance { first: 1, second: 2, distance: 6 },
        ]
    );
    assert_eq!(upper_triangle(1, &[0]), vec![]);
}

#[test]
fn words_round_trip_through_bytes() {
    let bytes = words_to_bytes(&[1, 0x0403_0201, u32::MAX]);
    assert_eq!(bytes, vec![1, 0, 0, 0, 1, 2, 3, 4, 255, 255, 255, 255]);
    assert_eq!(decode_words(&bytes), vec![1, 0x0403_0201, u32::MAX]);
}

#[test]
fn trailing_bytes_are_not_decoded() {
    assert_eq!(decode_words(&[7, 0, 0, 0, 9, 9]), vec![7]);
    assert_eq!(decode_words(&[]), Vec::<u32>::new());
}
