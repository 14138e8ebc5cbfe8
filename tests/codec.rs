use levenshtein_with_gpu::{encode_words, word_codes, LevenshteinError, WORDS_PADDING};

#[test]
fn codes_are_character_values_plus_one() {
    assert_eq!(word_codes("aé"), vec![98, 234]);
    assert_eq!(word_codes("\0"), vec![1]);
    assert_eq!(word_codes(""), Vec::<u32>::new());
}

#[test]
fn encoding_pads_each_word_with_zeros() {
    let words = ["ab", "", "c"];
    let codes = encode_words(&words).unwrap();
    assert_eq!(codes.len(), 3 * WORDS_PADDING);
    let mut expected = vec![0u32; 3 * WORDS_PADDING];
    expected[0] = 98;
    expected[1] = 99;
    expected[2 * WORDS_PADDING] = 100;
    assert_eq!(codes, expected);
}

#[test]
fn word_of_padding_length_is_accepted() {
    let word = "z".repeat(WORDS_PADDING);
    let words = [word.as_str()];
    let codes = encode_words(&words).unwrap();
    assert_eq!(codes, vec![123u32; WORDS_PADDING]);
}

#[test]
fn word_longer_than_padding_is_rejected() {
    let long = "q".repeat(WORDS_PADDING + 1);
    let words = ["fine", long.as_str(), long.as_str()];
    assert_eq!(encode_words(&words), Err(LevenshteinError::WordTooLong { index: 1 }));
}

#[test]
fn padding_counts_characters_not_bytes() {
    let word = "é".repeat(WORDS_PADDING);
    let words = [word.as_str()];
    let codes = encode_words(&words).unwrap();
    assert_eq!(codes, vec![234u32; WORDS_PADDING]);
}
