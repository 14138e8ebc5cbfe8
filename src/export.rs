//! The upper triangle of a distance matrix as a list of word pairs, the shape
//! in which a matrix is exported as records.

use vstd::prelude::*;

verus! {

/// The distance between the words at positions `first` and `second`.
#[derive(Debug, Clone, Copy, PartialEq, Eq, Structural)]
pub struct PairDistance {
    pub first: usize,
    pub second: usize,
    pub distance: u32,
}

/// The pairs `(i, j)` with `i < j` of row `i` of an `n` by `n` matrix, by
/// increasing `j`.
pub open spec fn row_pairs(d: Seq<u32>, n: int, i: int) -> Seq<PairDistance> {
    Seq::new(
        (n - i - 1) as nat,
        |k: int| PairDistance { first: i as usize, second: (i + 1 + k) as usize, distance: d[i * n + i + 1 + k] },
    )
}

/// The pairs above the diagonal of the first `rows` rows, row by row.
pub open spec fn upper_pairs(d: Seq<u32>, n: int, rows: int) -> Seq<PairDistance>
    decreases rows,
{
    if rows <= 0 {
        Seq::empty()
    } else {
        upper_pairs(d, n, rows - 1) + row_pairs(d, n, rows - 1)
    }
}

/// Every pair of distinct positions `i < j` of a row-major `n` by `n`
/// matrix, with its distance, row by row and by increasing `j` within a row.
pub fn upper_triangle(word_count: usize, distances: &[u32]) -> (r: Vec<PairDistance>)
    requires
        distances@.len() == word_count * word_count,
    ensures
        r@ == upper_pairs(distances@, word_count as int, word_count as int),
{
    let n = word_count;
    let total = distances.len();
    let mut out: Vec<PairDistance> = Vec::new();
    for i in 0..n
        invariant
            n == word_count,
            total == distances@.len(),
            total == n * n,
            out@ == upper_pairs(distances@, n as int, i as int),
    {
        let ghost base = out@;
        for j in i + 1..n
            invariant
                n == word_count,
                i < n,
                total == distances@.len(),
                total == n * n,
                i + 1 <= j <= n,
                base == upper_pairs(distances@, n as int, i as int),
                out@ == base + row_pairs(distances@, n as int, i as int).take(j - i - 1),
        {
            assert(i * n + j < n * n) by (nonlinear_arith)
                requires
                    i < n,
                    j < n,
            ;
            out.push(PairDistance { first: i, second: j, distance: distances[i * n + j] });
            assert(out@ =~= base + row_pairs(distances@, n as int, i as int).take(j - i));
        }
        assert(row_pairs(distances@, n as int, i as int).take(n - i - 1) =~= row_pairs(
            distances@,
            n as int,
            i as int,
        ));
    }
    out
}

} // verus!
