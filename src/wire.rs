//! The byte layout of the regions shared with the device: each code and each
//! distance is a 32-bit unsigned integer stored little-endian, as WebGPU
//! buffers hold them.

use vstd::prelude::*;

verus! {

/// The integer held by the four bytes of `b` that start at `4 * k`, lowest
/// byte first.
pub open spec fn le_word(b: Seq<u8>, k: int) -> int {
    b[4 * k] + 256 * b[4 * k + 1] + 65536 * b[4 * k + 2] + 16777216 * b[4 * k + 3]
}

/// Byte `m` (0 to 3, lowest first) of the little-endian form of `v`.
pub open spec fn le_byte(v: u32, m: int) -> int {
    let v = v as int;
    if m == 0 {
        v % 256
    } else if m == 1 {
        (v / 256) % 256
    } else if m == 2 {
        (v / 65536) % 256
    } else {
        v / 16777216
    }
}

/// The integers held by a mapped region, four bytes each, lowest byte first;
/// trailing bytes that do not make a whole integer are left out.
pub fn decode_words(bytes: &[u8]) -> (r: Vec<u32>)
    ensures
        r@.len() == bytes@.len() / 4,
        forall|k: int| 0 <= k < r@.len() ==> r@[k] == le_word(bytes@, k),
{
    let len = bytes.len();
    let count = len / 4;
    let mut out: Vec<u32> = Vec::new();
    for k in 0..count
        invariant
            count == bytes@.len() / 4,
            len == bytes@.len(),
            out@.len() == k,
            forall|j: int| 0 <= j < k ==> out@[j] == le_word(bytes@, j),
    {
        let b0 = bytes[4 * k] as u32;
        let b1 = bytes[4 * k + 1] as u32;
        let b2 = bytes[4 * k + 2] as u32;
        let b3 = bytes[4 * k + 3] as u32;
        assert(b0 + 256 * b1 + 65536 * b2 + 16777216 * b3 <= 0xffff_ffff) by (nonlinear_arith)
            requires
                b0 <= 255,
                b1 <= 255,
                b2 <= 255,
                b3 <= 255,
        ;
        out.push(b0 + 256 * b1 + 65536 * b2 + 16777216 * b3);
    }
    out
}

/// The bytes of a sequence of integers, four per integer, lowest byte first.
pub fn words_to_bytes(values: &[u32]) -> (r: Vec<u8>)
    requires
        values@.len() * 4 <= usize::MAX,
    ensures
        r@.len() == values@.len() * 4,
        forall|k: int, m: int|
            0 <= k < values@.len() && 0 <= m < 4 ==> #[trigger] r@[4 * k + m] == le_byte(values@[k], m),
{
    let mut out: Vec<u8> = Vec::new();
    for k in 0..values.len()
        invariant
            values@.len() * 4 <= usize::MAX,
            out@.len() == 4 * k,
            forall|j: int, m: int| 0 <= j < k && 0 <= m < 4 ==> #[trigger] out@[4 * j + m] == le_byte(values@[j], m),
    {
        let v = values[k];
        let ghost before = out@;
        out.push((v % 256) as u8);
        out.push(((v / 256) % 256) as u8);
        out.push(((v / 65536) % 256) as u8);
        assert(v / 16777216 <= 255) by (nonlinear_arith);
        out.push((v / 16777216) as u8);
        assert forall|j: int, m: int| 0 <= j < k + 1 && 0 <= m < 4 implies #[trigger] out@[4 * j + m] == le_byte(
            values@[j],
            m,
        ) by {
            if j < k {
                assert(out@[4 * j + m] == before[4 * j + m]);
            }
        }
    }
    out
}

} // verus!
