//! How the kernel's results relate to the sequential engine's.

use vstd::prelude::*;

use crate::codec::{all_fit, encoded, padded};
use crate::distance::{char_code, codes, lemma_char_code_nonzero, word_distance};
use crate::kernel::{kernel_cell, lemma_word_len, unpadded, window, WORDS_PADDING};

verus! {

/// The encoding holds one window of `WORDS_PADDING` codes per word, and the
/// window of word `i` is that word's padded codes.
pub proof fn lemma_encoded_window(words: Seq<Seq<char>>, i: int)
    requires
        all_fit(words),
        0 <= i < words.len(),
    ensures
        encoded(words).len() == words.len() * WORDS_PADDING,
        window(encoded(words), i * WORDS_PADDING) == padded(codes(words[i])),
    decreases words.len(),
{
    let rest = words.drop_last();
    let n = words.len() as int;
    assert forall|k: int| 0 <= k < rest.len() implies #[trigger] rest[k].len() <= WORDS_PADDING by {
        assert(rest[k] == words[k]);
    }
    assert(words.last().len() <= WORDS_PADDING);
    assert(padded(codes(words.last())).len() == WORDS_PADDING);
    if n == 1 {
        assert(encoded(rest) =~= Seq::<u32>::empty());
        assert(window(encoded(words), i * WORDS_PADDING) =~= padded(codes(words[i])));
    } else {
        if i < n - 1 {
            lemma_encoded_window(rest, i);
        } else {
            lemma_encoded_window(rest, 0);
        }
        assert(n * WORDS_PADDING == (n - 1) * WORDS_PADDING + WORDS_PADDING) by (nonlinear_arith);
        if i < n - 1 {
            assert(i * WORDS_PADDING + WORDS_PADDING <= (n - 1) * WORDS_PADDING) by (nonlinear_arith)
                requires
                    i < n - 1,
            ;
            assert(window(encoded(words), i * WORDS_PADDING) =~= window(encoded(rest), i * WORDS_PADDING));
        } else {
            assert(window(encoded(words), i * WORDS_PADDING) =~= padded(codes(words[i])));
        }
    }
}

/// The window of a word that fits the padding bound holds exactly that
/// word's codes: no code of a word is the padding code.
pub proof fn lemma_unpadded_padded(w: Seq<char>)
    requires
        w.len() <= WORDS_PADDING,
    ensures
        unpadded(padded(codes(w))) == codes(w),
{
    let p = padded(codes(w));
    assert forall|j: int| 0 <= j < w.len() implies p[j] != 0 by {
        lemma_char_code_nonzero(w[j]);
        assert(p[j] == char_code(w[j]));
    }
    lemma_word_len(p, w.len() as int);
    assert(unpadded(p) =~= codes(w));
}

/// For every batch whose words fit the padding bound, the kernel writes at
/// `i * n + j` exactly the sequential engine's distance from word `i` to
/// word `j`: the two paths agree on every entry.
pub proof fn lemma_cpu_matches_kernel(words: Seq<Seq<char>>)
    requires
        all_fit(words),
    ensures
        encoded(words).len() == words.len() * WORDS_PADDING,
        forall|i: int, j: int|
            0 <= i < words.len() && 0 <= j < words.len() ==> #[trigger] kernel_cell(encoded(words), i, j)
                == word_distance(words[i], words[j]),
{
    if words.len() > 0 {
        lemma_encoded_window(words, 0);
    }
    assert forall|i: int, j: int| 0 <= i < words.len() && 0 <= j < words.len() implies #[trigger] kernel_cell(
        encoded(words),
        i,
        j,
    ) == word_distance(words[i], words[j]) by {
        lemma_encoded_window(words, i);
        lemma_encoded_window(words, j);
        lemma_unpadded_padded(words[i]);
        lemma_unpadded_padded(words[j]);
    }
}

} // verus!
