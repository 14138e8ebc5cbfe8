//! The word codec: turns a batch of words into one flat buffer of
//! fixed-width, zero-padded character codes.

use vstd::prelude::*;

use crate::distance::{char_code, codes, lemma_char_code_nonzero};
use crate::error::LevenshteinError;
use crate::kernel::WORDS_PADDING;

verus! {

/// A code sequence followed by zeros up to `WORDS_PADDING` codes.
pub open spec fn padded(s: Seq<u32>) -> Seq<u32> {
    s + Seq::new((WORDS_PADDING - s.len()) as nat, |_k: int| 0u32)
}

/// The encoding of a whole batch: each word's padded codes, one after the other.
pub open spec fn encoded(words: Seq<Seq<char>>) -> Seq<u32>
    decreases words.len(),
{
    if words.len() == 0 {
        Seq::empty()
    } else {
        encoded(words.drop_last()) + padded(codes(words.last()))
    }
}

/// True when every word of the batch fits in the padding bound.
pub open spec fn all_fit(words: Seq<Seq<char>>) -> bool {
    forall|i: int| 0 <= i < words.len() ==> #[trigger] words[i].len() <= WORDS_PADDING
}

/// The character codes of one word: each character's scalar value plus one.
pub fn word_codes(w: &str) -> (r: Vec<u32>)
    ensures
        r@ == codes(w@),
{
    let mut r: Vec<u32> = Vec::new();
    for c in it: w.chars()
        invariant
            r@.len() == it.index(),
            forall|k: int| 0 <= k < it.index() ==> r@[k] == char_code(it.seq()[k]),
    {
        proof {
            lemma_char_code_nonzero(c);
        }
        r.push(c as u32 + 1);
    }
    assert(r@ =~= codes(w@));
    r
}

/// True when `e` reports the first word of the batch that is longer than the
/// padding bound.
pub open spec fn reports_first_too_long(words: Seq<Seq<char>>, e: LevenshteinError) -> bool {
    match e {
        LevenshteinError::WordTooLong { index } => {
            &&& index < words.len()
            &&& words[index as int].len() > WORDS_PADDING
            &&& all_fit(words.take(index as int))
        },
        _ => false,
    }
}

/// Encodes a batch: each word becomes its character codes followed by zeros,
/// `WORDS_PADDING` codes in all. Fails on the first word that has more
/// characters than that, before anything else is done.
pub fn encode_words(words: &[&str]) -> (r: Result<Vec<u32>, LevenshteinError>)
    ensures
        r is Ok <==> all_fit(words.deep_view()),
        r matches Ok(v) ==> v@ == encoded(words.deep_view()),
        r matches Err(e) ==> reports_first_too_long(words.deep_view(), e),
{
    let ghost ws = words.deep_view();
    let mut out: Vec<u32> = Vec::new();
    for i in 0..words.len()
        invariant
            ws == words.deep_view(),
            all_fit(ws.take(i as int)),
            out@ == encoded(ws.take(i as int)),
    {
        let w = words[i];
        let word = word_codes(w);
        assert(ws.take(i + 1).drop_last() =~= ws.take(i as int));
        if word.len() > WORDS_PADDING {
            assert(ws[i as int] == w@);
            assert(ws[i as int].len() > WORDS_PADDING);
            return Err(LevenshteinError::WordTooLong { index: i });
        }
        let ghost base = out@;
        for k in 0..word.len()
            invariant
                out@ == base + word@.take(k as int),
        {
            out.push(word[k]);
            assert(out@ =~= base + word@.take(k + 1));
        }
        assert(word@.take(word@.len() as int) =~= word@);
        let ghost mid = out@;
        for k in 0..WORDS_PADDING - word.len()
            invariant
                out@ == mid + Seq::new(k as nat, |_j: int| 0u32),
        {
            out.push(0u32);
            assert(out@ =~= mid + Seq::new((k + 1) as nat, |_j: int| 0u32));
        }
        assert(out@ =~= encoded(ws.take(i + 1)));
        assert forall|j: int| 0 <= j < i + 1 implies #[trigger] ws.take(i + 1)[j].len() <= WORDS_PADDING by {
            if j < i {
                assert(ws.take(i as int)[j] == ws[j]);
            }
        }
    }
    assert(ws.take(words.len() as int) =~= ws);
    Ok(out)
}

} // verus!
