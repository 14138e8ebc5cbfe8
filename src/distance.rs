//! The mathematical model: edit distance over sequences of character codes.

use vstd::prelude::*;

verus! {

/// The smallest of three natural numbers.
pub open spec fn min3(x: nat, y: nat, z: nat) -> nat {
    if x <= y && x <= z {
        x
    } else if y <= z {
        y
    } else {
        z
    }
}

/// Cost of aligning two codes with each other: 0 when they match, 1 otherwise.
pub open spec fn subst_cost(x: u32, y: u32) -> nat {
    if x == y {
        0
    } else {
        1
    }
}

/// Levenshtein distance: the least number of single-code insertions,
/// deletions and substitutions that turn `a` into `b`.
pub open spec fn edit_distance(a: Seq<u32>, b: Seq<u32>) -> nat
    decreases a.len() + b.len(),
{
    if a.len() == 0 {
        b.len()
    } else if b.len() == 0 {
        a.len()
    } else {
        min3(
            edit_distance(a.drop_last(), b) + 1,
            edit_distance(a, b.drop_last()) + 1,
            edit_distance(a.drop_last(), b.drop_last()) + subst_cost(a.last(), b.last()),
        )
    }
}

/// The code of one character: its scalar value plus one, so that no
/// character takes the padding code 0.
pub open spec fn char_code(c: char) -> u32 {
    (c as u32 + 1) as u32
}

/// A character's scalar value lies within the Unicode range, so its code
/// is never the padding code 0.
pub proof fn lemma_char_code_nonzero(c: char)
    ensures
        0 <= c as int <= 0x10FFFF,
        char_code(c) == c as u32 + 1,
        char_code(c) != 0,
{
}

/// The code of each character of a word.
pub open spec fn codes(w: Seq<char>) -> Seq<u32> {
    w.map_values(|c: char| char_code(c))
}

/// Edit distance between two words, character by character.
pub open spec fn word_distance(a: Seq<char>, b: Seq<char>) -> nat {
    edit_distance(codes(a), codes(b))
}

/// The recurrence on prefixes, as a dynamic-programming table reads it.
pub proof fn lemma_prefix_step(a: Seq<u32>, b: Seq<u32>, i: int, j: int)
    requires
        0 < i <= a.len(),
        0 < j <= b.len(),
    ensures
        edit_distance(a.take(i), b.take(j)) == min3(
            edit_distance(a.take(i - 1), b.take(j)) + 1,
            edit_distance(a.take(i), b.take(j - 1)) + 1,
            edit_distance(a.take(i - 1), b.take(j - 1)) + subst_cost(a[i - 1], b[j - 1]),
        ),
{
    assert(a.take(i).drop_last() =~= a.take(i - 1));
    assert(b.take(j).drop_last() =~= b.take(j - 1));
}

/// The distance never exceeds the longer length.
pub proof fn lemma_upper_bound(a: Seq<u32>, b: Seq<u32>)
    ensures
        edit_distance(a, b) <= if a.len() >= b.len() { a.len() } else { b.len() },
    decreases a.len() + b.len(),
{
    if a.len() > 0 && b.len() > 0 {
        lemma_upper_bound(a.drop_last(), b.drop_last());
    }
}

/// The distance is at least the difference of the lengths.
pub proof fn lemma_lower_bound(a: Seq<u32>, b: Seq<u32>)
    ensures
        edit_distance(a, b) + b.len() >= a.len(),
        edit_distance(a, b) + a.len() >= b.len(),
    decreases a.len() + b.len(),
{
    if a.len() > 0 && b.len() > 0 {
        lemma_lower_bound(a.drop_last(), b);
        lemma_lower_bound(a, b.drop_last());
        lemma_lower_bound(a.drop_last(), b.drop_last());
    }
}

/// A sequence is at distance zero from itself.
pub proof fn lemma_self_zero(a: Seq<u32>)
    ensures
        edit_distance(a, a) == 0,
    decreases a.len(),
{
    if a.len() > 0 {
        lemma_self_zero(a.drop_last());
    }
}

/// The distance does not depend on the order of its operands.
pub proof fn lemma_symmetric(a: Seq<u32>, b: Seq<u32>)
    ensures
        edit_distance(a, b) == edit_distance(b, a),
    decreases a.len() + b.len(),
{
    if a.len() > 0 && b.len() > 0 {
        lemma_symmetric(a.drop_last(), b);
        lemma_symmetric(a, b.drop_last());
        lemma_symmetric(a.drop_last(), b.drop_last());
    }
}

/// Going from `a` to `c` never costs more than going through `b`.
pub proof fn lemma_triangle(a: Seq<u32>, b: Seq<u32>, c: Seq<u32>)
    ensures
        edit_distance(a, c) <= edit_distance(a, b) + edit_distance(b, c),
    decreases a.len() + b.len() + c.len(),
{
    if a.len() == 0 {
        lemma_lower_bound(b, c);
    } else if c.len() == 0 {
        lemma_lower_bound(a, b);
    } else if b.len() == 0 {
        lemma_upper_bound(a, c);
    } else {
        let a1 = a.drop_last();
        let b1 = b.drop_last();
        let c1 = c.drop_last();
        if edit_distance(a, b) == edit_distance(a1, b) + 1 {
            lemma_triangle(a1, b, c);
        } else if edit_distance(b, c) == edit_distance(b, c1) + 1 {
            lemma_triangle(a, b, c1);
        } else if edit_distance(a, b) == edit_distance(a, b1) + 1 {
            if edit_distance(b, c) == edit_distance(b1, c) + 1 {
                lemma_triangle(a, b1, c);
            } else {
                lemma_triangle(a, b1, c1);
            }
        } else {
            if edit_distance(b, c) == edit_distance(b1, c) + 1 {
                lemma_triangle(a1, b1, c);
            } else {
                lemma_triangle(a1, b1, c1);
            }
        }
    }
}

/// Every word is at distance zero from itself.
pub proof fn lemma_word_distance_to_self(w: Seq<char>)
    ensures
        word_distance(w, w) == 0,
{
    lemma_self_zero(codes(w));
}

/// The distance between two words does not depend on their order.
pub proof fn lemma_word_distance_symmetric(a: Seq<char>, b: Seq<char>)
    ensures
        word_distance(a, b) == word_distance(b, a),
{
    lemma_symmetric(codes(a), codes(b));
}

/// The distance between words obeys the triangle inequality.
pub proof fn lemma_word_distance_triangle(a: Seq<char>, b: Seq<char>, c: Seq<char>)
    ensures
        word_distance(a, c) <= word_distance(a, b) + word_distance(b, c),
{
    lemma_triangle(codes(a), codes(b), codes(c));
}

/// The empty word is as far from any word, in either order, as that word is long.
pub proof fn lemma_word_distance_from_empty(w: Seq<char>)
    ensures
        word_distance(Seq::empty(), w) == w.len(),
        word_distance(w, Seq::empty()) == w.len(),
{
    assert(codes(Seq::<char>::empty()) =~= Seq::<u32>::empty());
}

} // verus!
