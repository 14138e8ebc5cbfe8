//! The sequential distance engine: the reference the kernel is held to.

use vstd::prelude::*;

use crate::codec::word_codes;
use crate::distance::{
    codes, edit_distance, lemma_prefix_step, lemma_upper_bound, lemma_word_distance_from_empty,
    lemma_word_distance_symmetric, lemma_word_distance_to_self, lemma_word_distance_triangle, word_distance,
};

verus! {

/// Edit distance between two code sequences, computed with two rows of
/// `b.len() + 1` entries each (`previous` and `current`).
pub fn code_distance(a: &Vec<u32>, b: &Vec<u32>) -> (r: u32)
    requires
        a.len() < u32::MAX,
        b.len() < u32::MAX,
    ensures
        r == edit_distance(a@, b@),
{
    let m = b.len();
    let mut previous: Vec<u32> = Vec::new();
    for j in 0..m + 1
        invariant
            previous@.len() == j,
            m < u32::MAX,
            forall|k: int| 0 <= k < j ==> previous@[k] == k,
    {
        previous.push(j as u32);
    }
    let mut current: Vec<u32> = previous.clone();
    assert forall|k: int| 0 <= k <= m implies previous@[k] == edit_distance(a@.take(0), b@.take(k)) by {
        assert(a@.take(0).len() == 0);
    }
    for i in 0..a.len()
        invariant
            m == b.len(),
            a.len() < u32::MAX,
            b.len() < u32::MAX,
            previous@.len() == m + 1,
            current@.len() == m + 1,
            forall|k: int| 0 <= k <= m ==> previous@[k] == edit_distance(a@.take(i as int), b@.take(k)),
    {
        let code_a = a[i];
        current.set(0, (i + 1) as u32);
        assert(b@.take(0).len() == 0);
        for j in 0..m
            invariant
                m == b.len(),
                a.len() < u32::MAX,
                b.len() < u32::MAX,
                0 <= i < a.len(),
                code_a == a@[i as int],
                previous@.len() == m + 1,
                current@.len() == m + 1,
                forall|k: int| 0 <= k <= m ==> previous@[k] == edit_distance(a@.take(i as int), b@.take(k)),
                forall|k: int| 0 <= k <= j ==> current@[k] == edit_distance(a@.take(i + 1), b@.take(k)),
        {
            proof {
                lemma_upper_bound(a@.take(i as int), b@.take(j + 1));
                lemma_upper_bound(a@.take(i as int), b@.take(j as int));
                lemma_upper_bound(a@.take(i + 1), b@.take(j as int));
                lemma_prefix_step(a@, b@, i + 1, j + 1);
            }
            let cost: u32 = if code_a != b[j] { 1 } else { 0 };
            let deletion: u32 = previous[j + 1] + 1;
            let insertion: u32 = current[j] + 1;
            let substitution: u32 = previous[j] + cost;
            let best = if deletion < insertion { deletion } else { insertion };
            let best = if best < substitution { best } else { substitution };
            current.set(j + 1, best);
        }
        let finished = current;
        current = previous;
        previous = finished;
    }
    assert(a@.take(a.len() as int) =~= a@);
    assert(b@.take(m as int) =~= b@);
    previous[m]
}

/// Row-major positions of rows before `i` lie before `i * n`.
proof fn lemma_row_major(n: int, i: int, p: int, q: int)
    requires
        0 <= p < i,
        0 <= q < n,
    ensures
        0 <= p * n + q < i * n,
        p * n + q != i * n + q,
{
    assert(0 <= p * n + q < i * n) by (nonlinear_arith)
        requires
            0 <= p < i,
            0 <= q < n,
    ;
}

/// The `n` by `n` distance matrix of a batch, row-major: entry `i * n + j`
/// is the distance from word `i` to word `j`, the diagonal included.
pub fn levenshtein_distance_cpu(words: &[&str]) -> (r: Vec<u32>)
    requires
        words.len() * words.len() <= usize::MAX,
        forall|i: int| 0 <= i < words.len() ==> #[trigger] words@[i]@.len() < u32::MAX,
    ensures
        r@.len() == words.len() * words.len(),
        forall|i: int, j: int|
            0 <= i < words.len() && 0 <= j < words.len() ==> #[trigger] r@[i * words.len() + j]
                == word_distance(words@[i]@, words@[j]@),
        forall|i: int| 0 <= i < words.len() ==> #[trigger] r@[i * words.len() + i] == 0,
        forall|i: int, j: int|
            0 <= i < words.len() && 0 <= j < words.len() ==> #[trigger] r@[i * words.len() + j]
                == #[trigger] r@[j * words.len() + i],
        forall|i: int, j: int, k: int|
            #![trigger r@[i * words.len() + j], r@[j * words.len() + k]]
            0 <= i < words.len() && 0 <= j < words.len() && 0 <= k < words.len() ==> r@[i * words.len() + k]
                <= r@[i * words.len() + j] + r@[j * words.len() + k],
        forall|i: int, j: int|
            0 <= i < words.len() && 0 <= j < words.len() && words@[i]@.len() == 0 ==> #[trigger] r@[i
                * words.len() + j] == words@[j]@.len() && r@[j * words.len() + i] == words@[j]@.len(),
{
    let n = words.len();
    let mut encoded: Vec<Vec<u32>> = Vec::new();
    for i in 0..n
        invariant
            n == words.len(),
            encoded@.len() == i,
            forall|k: int| 0 <= k < i ==> (#[trigger] encoded@[k])@ == codes(words@[k]@),
    {
        encoded.push(word_codes(words[i]));
    }
    let mut results: Vec<u32> = Vec::new();
    assert(0 * n == 0) by (nonlinear_arith);
    for i in 0..n
        invariant
            n == words.len(),
            n * n <= usize::MAX,
            encoded@.len() == n,
            forall|k: int| 0 <= k < n ==> (#[trigger] encoded@[k])@ == codes(words@[k]@),
            forall|k: int| 0 <= k < n ==> #[trigger] words@[k]@.len() < u32::MAX,
            results@.len() == i * n,
            forall|p: int, q: int|
                0 <= p < i && 0 <= q < n ==> #[trigger] results@[p * n + q] == word_distance(words@[p]@, words@[q]@),
    {
        for j in 0..n
            invariant
                n == words.len(),
                n * n <= usize::MAX,
                i < n,
                encoded@.len() == n,
                forall|k: int| 0 <= k < n ==> (#[trigger] encoded@[k])@ == codes(words@[k]@),
                forall|k: int| 0 <= k < n ==> #[trigger] words@[k]@.len() < u32::MAX,
                results@.len() == i * n + j,
                forall|p: int, q: int|
                    0 <= p < i && 0 <= q < n ==> #[trigger] results@[p * n + q] == word_distance(words@[p]@, words@[q]@),
                forall|q: int| 0 <= q < j ==> #[trigger] results@[i * n + q] == word_distance(words@[i as int]@, words@[q]@),
        {
            assert(i * n + j < n * n) by (nonlinear_arith)
                requires
                    i < n,
                    j < n,
            ;
            let d = code_distance(&encoded[i], &encoded[j]);
            let ghost before = results@;
            results.push(d);
            assert forall|p: int, q: int| 0 <= p < i && 0 <= q < n implies #[trigger] results@[p * n + q]
                == word_distance(words@[p]@, words@[q]@) by {
                lemma_row_major(n as int, i as int, p, q);
                assert(results@[p * n + q] == before[p * n + q]);
            }
        }
        assert((i + 1) * n == i * n + n) by (nonlinear_arith);
        assert forall|p: int, q: int| 0 <= p < i + 1 && 0 <= q < n implies #[trigger] results@[p * n + q]
            == word_distance(words@[p]@, words@[q]@) by {
            if p < i {
                lemma_row_major(n as int, i as int, p, q);
            }
        }
    }
    assert forall|i: int| 0 <= i < n implies #[trigger] results@[i * n + i] == 0 by {
        lemma_word_distance_to_self(words@[i]@);
    }
    assert forall|i: int, j: int| 0 <= i < n && 0 <= j < n implies #[trigger] results@[i * n + j]
        == #[trigger] results@[j * n + i] by {
        lemma_word_distance_symmetric(words@[i]@, words@[j]@);
    }
    assert forall|i: int, j: int, k: int| 0 <= i < n && 0 <= j < n && 0 <= k < n implies #[trigger] results@[i * n + k]
        <= #[trigger] results@[i * n + j] + #[trigger] results@[j * n + k] by {
        lemma_word_distance_triangle(words@[i]@, words@[j]@, words@[k]@);
    }
    assert forall|i: int, j: int| 0 <= i < n && 0 <= j < n && words@[i]@.len() == 0 implies #[trigger] results@[i
        * n + j] == words@[j]@.len() && results@[j * n + i] == words@[j]@.len() by {
        lemma_word_distance_from_empty(words@[j]@);
        assert(words@[i]@ =~= Seq::<char>::empty());
    }
    results
}

} // verus!
