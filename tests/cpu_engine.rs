use levenshtein_with_gpu::levenshtein_distance_cpu;

#[test]
fn test_levenshtein() {
    let words = ["kitten", "sitting"];
    let distances = levenshtein_distance_cpu(&words);
    assert_eq!(distances, vec![0, 3, 3, 0]);
}

#[test]
fn test_empty_words() {
    let words = ["", "test"];
    let distances = levenshtein_distance_cpu(&words);
    assert_eq!(distances, vec![0, 4, 4, 0]);
}

#[test]
fn test_bananas() {
    let words = ["kitten", "kill", "bananas"];
    let distances = levenshtein_distance_cpu(&words);
    assert_eq!(distances, vec![0, 4, 7, 4, 0, 7, 7, 7, 0]);
}

#[test]
fn empty_batch_gives_empty_matrix() {
    let words: [&str; 0] = [];
    assert_eq!(levenshtein_distance_cpu(&words), Vec::<u32>::new());
}

#[test]
fn word_is_at_distance_zero_from_itself() {
    let words = ["flaw", "flaw", "lawn"];
    let d = levenshtein_distance_cpu(&words);
    for i in 0..3 {
        assert_eq!(d[i * 3 + i], 0);
    }
    assert_eq!(d[1], 0);
}

#[test]
fn distance_is_symmetric() {
    let words = ["flaw", "lawn", "gumbo", "gambol", ""];
    let n = words.len();
    let d = levenshtein_distance_cpu(&words);
    for i in 0..n {
        for j in 0..n {
            assert_eq!(d[i * n + j], d[j * n + i]);
        }
    }
    assert_eq!(d[1], 2);
    assert_eq!(d[2 * n + 3], 2);
}

#[test]
fn distance_obeys_triangle_inequality() {
    let words = ["saturday", "sunday", "monday", "mon", "x"];
    let n = words.len();
    let d = levenshtein_distance_cpu(&words);
    for a in 0..n {
        for b in 0..n {
            for c in 0..n {
                assert!(d[a * n + c] <= d[a * n + b] + d[b * n + c]);
            }
        }
    }
    assert_eq!(d[1], 3);
}

#[test]
fn empty_word_is_as_far_as_the_other_is_long() {
    let words = ["", "abcde", "ünï"];
    let d = levenshtein_distance_cpu(&words);
    assert_eq!(d, vec![0, 5, 3, 5, 0, 5, 3, 5, 0]);
}

#[test]
fn distance_counts_characters_not_bytes() {
    let words = ["café", "cafe"];
    assert_eq!(levenshtein_distance_cpu(&words), vec![0, 1, 1, 0]);
}
