use levenshtein_with_gpu::{
    encode_words, levenshtein, levenshtein_distance_cpu, main_cs, WORDS_PADDING,
};

fn run_kernel(words: &[&str]) -> Vec<u32> {
    let codes = encode_words(words).unwrap();
    let n = words.len();
    let mut output = vec![u32::MAX; n * n];
    for id in 0..n {
        main_cs(id as u32, &codes, &mut output);
    }
    output
}

#[test]
fn kernel_scenario_kitten_sitting() {
    assert_eq!(run_kernel(&["kitten", "sitting"]), vec![0, 3, 3, 0]);
}

#[test]
fn kernel_scenario_empty_word() {
    assert_eq!(run_kernel(&["", "test"]), vec![0, 4, 4, 0]);
}

#[test]
fn kernel_scenario_bananas() {
    assert_eq!(run_kernel(&["kitten", "kill", "bananas"]), vec![0, 4, 7, 4, 0, 7, 7, 7, 0]);
}

#[test]
fn kernel_matches_cpu_on_equal_lengths() {
    let words = ["flaw", "lawn", "abcd", "dcba", "aaaa"];
    assert_eq!(run_kernel(&words), levenshtein_distance_cpu(&words));
}

#[test]
fn kernel_matches_cpu_on_mixed_batch() {
    let words = ["kitten", "kit", "", "sitting"];
    assert_eq!(run_kernel(&words), levenshtein_distance_cpu(&words));
}

#[test]
fn kernel_matches_cpu_for_a_shifted_word() {
    let words = ["x", "yx"];
    assert_eq!(levenshtein_distance_cpu(&words), vec![0, 1, 1, 0]);
    assert_eq!(run_kernel(&words), vec![0, 1, 1, 0]);
}

#[test]
fn kernel_matches_cpu_when_the_shorter_word_needs_an_insertion() {
    let words = ["kitten", "kite"];
    assert_eq!(levenshtein_distance_cpu(&words), vec![0, 2, 2, 0]);
    assert_eq!(run_kernel(&words), vec![0, 2, 2, 0]);
}

#[test]
fn kernel_matches_cpu_on_words_holding_nul() {
    let words = ["a\0b", "ab", "\0", ""];
    assert_eq!(run_kernel(&words), levenshtein_distance_cpu(&words));
    assert_eq!(run_kernel(&words)[1], 1);
}

#[test]
fn window_distance_of_two_words() {
    let codes = encode_words(&["book", "back"]).unwrap();
    assert_eq!(levenshtein(&codes, 0, WORDS_PADDING), 2);
    assert_eq!(levenshtein(&codes, WORDS_PADDING, WORDS_PADDING), 0);
}

#[test]
fn invocation_past_the_batch_writes_nothing() {
    let codes = encode_words(&["ab", "b"]).unwrap();
    let mut output = vec![9u32; 4];
    main_cs(2, &codes, &mut output);
    assert_eq!(output, vec![9, 9, 9, 9]);
    main_cs(1, &codes, &mut output);
    assert_eq!(output, vec![9, 9, 1, 0]);
}

#[test]
fn kernel_matches_cpu_on_long_mixed_batch() {
    let words = ["saturday", "sunday", "", "kitten", "kite", "a", "yx", "zzzzzzzzzzzzzzzzzzzzzzzzzzzzzzzz"];
    assert_eq!(run_kernel(&words), levenshtein_distance_cpu(&words));
    assert_eq!(run_kernel(&words)[1], 3);
}
