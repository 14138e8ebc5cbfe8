//! The data-parallel distance kernel: each invocation compares one encoded
//! word against every word of the batch, with two fixed-size rolling rows.

use vstd::prelude::*;

use crate::distance::{edit_distance, lemma_prefix_step, lemma_upper_bound, min3, subst_cost};

verus! {

/// Number of codes in every encoded word (the padding bound).
pub const WORDS_PADDING: usize = 32;

/// Length of one row of the kernel's dynamic-programming table.
pub const ROW_LEN: usize = WORDS_PADDING + 1;

/// Number of invocations in one workgroup of the kernel.
pub const WORKGROUP_SIZE: usize = 64;

/// The encoded word of `WORDS_PADDING` codes that starts at `start`.
pub open spec fn window(words: Seq<u32>, start: int) -> Seq<u32> {
    words.subrange(start, start + WORDS_PADDING)
}

/// Number of encoded words held by a buffer of codes.
pub open spec fn word_count(len: nat) -> nat {
    len / (WORDS_PADDING as nat)
}

/// Number of leading nonzero codes of a window: the length of the word that
/// a zero-padded window holds.
pub open spec fn word_len(w: Seq<u32>) -> nat
    decreases w.len(),
{
    if w.len() == 0 || w[0] == 0 {
        0
    } else {
        1 + word_len(w.drop_first())
    }
}

/// The word a zero-padded window holds, without its padding.
pub open spec fn unpadded(w: Seq<u32>) -> Seq<u32> {
    w.take(word_len(w) as int)
}

/// A window's word ends at the first zero code, or at the window's end.
pub proof fn lemma_word_len(w: Seq<u32>, k: int)
    requires
        0 <= k <= w.len(),
        forall|j: int| 0 <= j < k ==> w[j] != 0,
        k == w.len() || w[k] == 0,
    ensures
        word_len(w) == k,
    decreases k,
{
    if k > 0 {
        lemma_word_len(w.drop_first(), k - 1);
    }
}

/// What the kernel writes at `output[i * n + j]`: the distance between the
/// words held by the windows of words `i` and `j`.
pub open spec fn kernel_cell(words: Seq<u32>, i: int, j: int) -> nat {
    edit_distance(
        unpadded(window(words, i * WORDS_PADDING)),
        unpadded(window(words, j * WORDS_PADDING)),
    )
}

/// Length of the word in the window that starts at `start`, found by one
/// pass over the whole window.
pub fn window_len(words: &[u32], start: usize) -> (r: usize)
    requires
        start + WORDS_PADDING <= words.len(),
    ensures
        r == word_len(window(words@, start as int)),
        r <= WORDS_PADDING,
{
    let ghost w = window(words@, start as int);
    let mut len: usize = 0;
    let mut ended = false;
    for k in 0..WORDS_PADDING
        invariant
            w == window(words@, start as int),
            start + WORDS_PADDING <= words.len(),
            len <= k,
            ended == (len < k),
            forall|j: int| 0 <= j < len ==> w[j] != 0,
            len < k ==> w[len as int] == 0,
    {
        if words[start + k] == 0 {
            ended = true;
        }
        if !ended {
            len = len + 1;
        }
    }
    proof {
        lemma_word_len(w, len as int);
    }
    len
}

/// Edit distance between the words held by the encoded windows that start at
/// `start` and at `compared_word_start`. The recurrence runs over the whole
/// padded window with two fixed rows; the result is the cell at the row and
/// column of the two words' lengths.
pub fn levenshtein(words: &[u32], start: usize, compared_word_start: usize) -> (r: u32)
    requires
        start + WORDS_PADDING <= words.len(),
        compared_word_start + WORDS_PADDING <= words.len(),
    ensures
        r == edit_distance(
            unpadded(window(words@, start as int)),
            unpadded(window(words@, compared_word_start as int)),
        ),
{
    let ghost a = window(words@, start as int);
    let ghost b = window(words@, compared_word_start as int);
    let len_a = window_len(words, start);
    let len_b = window_len(words, compared_word_start);
    let mut prev = [0u32; ROW_LEN];
    let mut curr = [0u32; ROW_LEN];
    for j in 0..ROW_LEN
        invariant
            forall|k: int| 0 <= k < j ==> prev[k] == k,
    {
        prev[j] = j as u32;
    }
    assert forall|k: int| 0 <= k <= WORDS_PADDING implies prev[k] == edit_distance(a.take(0), b.take(k)) by {
        assert(a.take(0).len() == 0);
    }
    let mut result: u32 = prev[len_b];
    for i in 0..WORDS_PADDING
        invariant
            a == window(words@, start as int),
            b == window(words@, compared_word_start as int),
            start + WORDS_PADDING <= words.len(),
            compared_word_start + WORDS_PADDING <= words.len(),
            len_a <= WORDS_PADDING,
            len_b <= WORDS_PADDING,
            forall|k: int| 0 <= k <= WORDS_PADDING ==> prev[k] == edit_distance(a.take(i as int), b.take(k)),
            len_a <= i ==> result == edit_distance(a.take(len_a as int), b.take(len_b as int)),
    {
        let code_a = words[start + i];
        curr[0] = (i + 1) as u32;
        assert(b.take(0).len() == 0);
        for j in 0..WORDS_PADDING
            invariant
                a == window(words@, start as int),
                b == window(words@, compared_word_start as int),
                start + WORDS_PADDING <= words.len(),
                compared_word_start + WORDS_PADDING <= words.len(),
                0 <= i < WORDS_PADDING,
                code_a == a[i as int],
                forall|k: int| 0 <= k <= WORDS_PADDING ==> prev[k] == edit_distance(a.take(i as int), b.take(k)),
                forall|k: int| 0 <= k <= j ==> curr[k] == edit_distance(a.take(i + 1), b.take(k)),
        {
            let code_b = words[compared_word_start + j];
            proof {
                lemma_upper_bound(a.take(i as int), b.take(j + 1));
                lemma_upper_bound(a.take(i as int), b.take(j as int));
                lemma_upper_bound(a.take(i + 1), b.take(j as int));
                lemma_prefix_step(a, b, i + 1, j + 1);
            }
            let cost: u32 = if code_a != code_b { 1 } else { 0 };
            let del: u32 = prev[j + 1] + 1;
            let ins: u32 = curr[j] + 1;
            let sub: u32 = prev[j] + cost;
            let best_del_ins = if del < ins { del } else { ins };
            let best = if best_del_ins < sub { best_del_ins } else { sub };
            curr[j + 1] = best;
        }
        if i + 1 == len_a {
            result = curr[len_b];
        }
        prev = curr;
    }
    result
}

/// True when position `k` of an `n` by `n` matrix lies in row `i`.
pub open spec fn in_row(n: int, i: int, k: int) -> bool {
    i * n <= k < i * n + n
}

/// One invocation of the kernel, for the word with index `id`: it writes the
/// row `id` of the distance matrix of all words in `words`, and nothing else.
/// An invocation whose index lies past the last word writes nothing.
pub fn main_cs(id: u32, words: &[u32], output: &mut [u32])
    requires
        old(output)@.len() == word_count(words@.len()) * word_count(words@.len()),
    ensures
        final(output)@.len() == old(output)@.len(),
        (id as nat) < word_count(words@.len()) ==> forall|j: int|
            0 <= j < word_count(words@.len()) ==> #[trigger] final(output)@[id * word_count(words@.len()) + j]
                == kernel_cell(words@, id as int, j),
        forall|k: int|
            0 <= k < old(output)@.len() && !((id as nat) < word_count(words@.len()) && in_row(
                word_count(words@.len()) as int,
                id as int,
                k,
            )) ==> #[trigger] final(output)@[k] == old(output)@[k],
{
    let pair_idx = id as usize;
    let number_of_words = words.len() / WORDS_PADDING;
    if pair_idx >= number_of_words {
        return;
    }
    let out_len = output.len();
    let ghost n = number_of_words as int;
    let ghost before = output@;
    assert(pair_idx * n + n <= n * n) by (nonlinear_arith)
        requires
            pair_idx < n,
    ;
    assert(pair_idx * WORDS_PADDING + WORDS_PADDING <= words.len()) by (nonlinear_arith)
        requires
            pair_idx < n,
            n == words.len() / WORDS_PADDING,
    ;
    let start = pair_idx * WORDS_PADDING;
    let row = pair_idx * number_of_words;
    for compared_word_index in 0..number_of_words
        invariant
            n == number_of_words,
            n == word_count(words@.len()),
            pair_idx < n,
            start == pair_idx * WORDS_PADDING,
            start + WORDS_PADDING <= words.len(),
            row == pair_idx * n,
            row + n <= n * n,
            output@.len() == n * n,
            before.len() == n * n,
            out_len == n * n,
            forall|j: int| 0 <= j < compared_word_index ==> #[trigger] output@[row + j] == kernel_cell(
                words@,
                pair_idx as int,
                j,
            ),
            forall|k: int| 0 <= k < n * n && !(row <= k < row + compared_word_index) ==> #[trigger] output@[k] == before[k],
    {
        assert(compared_word_index * WORDS_PADDING + WORDS_PADDING <= words.len()) by (nonlinear_arith)
            requires
                compared_word_index < n,
                n == words.len() / WORDS_PADDING,
        ;
        let compared_word_start = compared_word_index * WORDS_PADDING;
        let dist = levenshtein(words, start, compared_word_start);
        output[row + compared_word_index] = dist;
    }
}

} // verus!
