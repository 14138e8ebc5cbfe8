//! Host-side bookkeeping of a compute session: the sizes of its device memory
//! regions, the checks made before any device work, the plan of one dispatch,
//! and the handling of what the device hands back.

use vstd::prelude::*;

use crate::codec::{all_fit, encode_words, encoded, reports_first_too_long};
use crate::error::LevenshteinError;
use crate::kernel::{WORDS_PADDING, WORKGROUP_SIZE};

verus! {

/// Bytes in one code or one distance on the device.
pub const WORD_BYTES: u64 = 4;

/// Bytes of the input region for `n` encoded words.
pub open spec fn input_region_bytes(n: nat) -> nat {
    n * (WORDS_PADDING as nat) * (WORD_BYTES as nat)
}

/// Bytes of an `n` by `n` matrix of distances.
pub open spec fn matrix_region_bytes(n: nat) -> nat {
    n * n * (WORD_BYTES as nat)
}

/// Workgroups needed for one invocation per word: `n` divided by the
/// workgroup size, rounded up.
pub open spec fn dispatch_groups(n: nat) -> nat {
    ((n + WORKGROUP_SIZE - 1) / (WORKGROUP_SIZE as int)) as nat
}

/// True when the regions of a session of the given capacity can be addressed
/// with 64-bit byte offsets.
pub open spec fn regions_addressable(capacity: nat) -> bool {
    input_region_bytes(capacity) <= u64::MAX && matrix_region_bytes(capacity) <= u64::MAX
}

/// The memory layout of a compute session, fixed when the session is created:
/// an input region for `capacity` encoded words, and an output and a staging
/// region for a `capacity` by `capacity` matrix.
pub struct SessionLayout {
    capacity: usize,
    input_bytes: u64,
    output_bytes: u64,
}

/// What one call hands to the device: the encoded batch, the number of
/// workgroups to dispatch, and the byte ranges of the regions it uses.
pub struct DispatchPlan {
    /// Number of words in the batch.
    pub word_count: usize,
    /// The batch, encoded at `WORDS_PADDING` codes per word.
    pub codes: Vec<u32>,
    /// Workgroups to dispatch, one invocation per word.
    pub workgroups: u32,
    /// Bytes of the input region that the batch occupies.
    pub input_bytes: u64,
    /// Bytes of the output region that the matrix occupies, and of the copy
    /// into the staging region.
    pub matrix_bytes: u64,
}

impl SessionLayout {
    /// Number of words the session can take in one call.
    pub closed spec fn spec_capacity(&self) -> nat {
        self.capacity as nat
    }

    /// The region sizes agree with the capacity.
    pub closed spec fn wf(&self) -> bool {
        &&& regions_addressable(self.capacity as nat)
        &&& self.input_bytes == input_region_bytes(self.capacity as nat)
        &&& self.output_bytes == matrix_region_bytes(self.capacity as nat)
    }

    /// The layout of a session for up to `capacity` words; none when its
    /// regions could not be addressed.
    pub fn new(capacity: usize) -> (r: Option<SessionLayout>)
        ensures
            r is Some <==> regions_addressable(capacity as nat),
            r matches Some(s) ==> s.wf() && s.spec_capacity() == capacity,
    {
        let cap = capacity as u64;
        let input = match cap.checked_mul(WORDS_PADDING as u64) {
            Some(x) => x.checked_mul(WORD_BYTES),
            None => None,
        };
        let output = match cap.checked_mul(cap) {
            Some(x) => x.checked_mul(WORD_BYTES),
            None => None,
        };
        proof {
            let c = capacity as nat;
            assert(c * WORDS_PADDING * WORD_BYTES == (c * WORDS_PADDING) * WORD_BYTES);
            assert(c * WORDS_PADDING <= c * WORDS_PADDING * WORD_BYTES) by (nonlinear_arith);
            assert(c * c <= c * c * WORD_BYTES) by (nonlinear_arith);
        }
        match (input, output) {
            (Some(input_bytes), Some(output_bytes)) => Some(
                SessionLayout { capacity, input_bytes, output_bytes },
            ),
            _ => None,
        }
    }

    /// Number of words the session can take in one call.
    pub fn capacity(&self) -> (r: usize)
        ensures
            r == self.spec_capacity(),
    {
        self.capacity
    }

    /// Bytes of the input region.
    pub fn input_bytes(&self) -> (r: u64)
        requires
            self.wf(),
        ensures
            r == input_region_bytes(self.spec_capacity()),
    {
        self.input_bytes
    }

    /// Bytes of the output region, and of the staging region.
    pub fn output_bytes(&self) -> (r: u64)
        requires
            self.wf(),
        ensures
            r == matrix_region_bytes(self.spec_capacity()),
    {
        self.output_bytes
    }

    /// Succeeds when a batch of `n` words fits the session.
    pub fn ensure_capacity(&self, n: usize) -> (r: Result<(), LevenshteinError>)
        ensures
            r is Ok <==> n <= self.spec_capacity(),
            r is Err ==> r == Err::<(), LevenshteinError>(
                LevenshteinError::CapacityExceeded { requested: n, capacity: self.spec_capacity() as usize },
            ),
    {
        if n <= self.capacity {
            Ok(())
        } else {
            Err(LevenshteinError::CapacityExceeded { requested: n, capacity: self.capacity })
        }
    }

    /// Prepares one call on the session: checks that the batch fits the
    /// session, then encodes it, and works out the dispatch and the byte
    /// ranges. Nothing is handed to the device when either check fails.
    pub fn plan(&self, words: &[&str]) -> (r: Result<DispatchPlan, LevenshteinError>)
        requires
            self.wf(),
        ensures
            words.len() > self.spec_capacity() ==> r == Err::<DispatchPlan, LevenshteinError>(
                LevenshteinError::CapacityExceeded {
                    requested: words.len(),
                    capacity: self.spec_capacity() as usize,
                },
            ),
            words.len() <= self.spec_capacity() ==> (r is Ok <==> all_fit(words.deep_view())),
            words.len() <= self.spec_capacity() && r is Err ==> reports_first_too_long(
                words.deep_view(),
                r->Err_0,
            ),
            r matches Ok(p) ==> {
                &&& p.word_count == words.len()
                &&& p.codes@ == encoded(words.deep_view())
                &&& p.workgroups == dispatch_groups(words.len() as nat)
                &&& p.input_bytes == input_region_bytes(words.len() as nat)
                &&& p.matrix_bytes == matrix_region_bytes(words.len() as nat)
            },
    {
        let n = words.len();
        match self.ensure_capacity(n) {
            Ok(()) => {},
            Err(e) => {
                return Err(e);
            },
        }
        let codes = match encode_words(words) {
            Ok(c) => c,
            Err(e) => {
                return Err(e);
            },
        };
        let ghost c = self.capacity as nat;
        proof {
            assert(n * n <= c * c) by (nonlinear_arith)
                requires
                    n <= c,
            ;
            assert(n * (WORDS_PADDING as nat) <= c * (WORDS_PADDING as nat)) by (nonlinear_arith)
                requires
                    n <= c,
            ;
            assert(c < 0x8000_0000) by (nonlinear_arith)
                requires
                    c * c * 4 <= 0xffff_ffff_ffff_ffff,
            ;
        }
        let count = n as u64;
        let input_bytes = count * (WORDS_PADDING as u64) * WORD_BYTES;
        let matrix_bytes = count * count * WORD_BYTES;
        let workgroups = ((n + (WORKGROUP_SIZE - 1)) / WORKGROUP_SIZE) as u32;
        Ok(DispatchPlan { word_count: n, codes, workgroups, input_bytes, matrix_bytes })
    }
}

/// The distance matrix of a call, out of what the device handed back: `None`
/// when mapping the staging region failed, otherwise the codes read from it.
/// The matrix is the first `word_count * word_count` values; a mapping that
/// failed, or that holds fewer values, is a failed transfer.
pub fn readback_matrix(word_count: usize, mapped: Option<Vec<u32>>) -> (r: Result<
    Vec<u32>,
    LevenshteinError,
>)
    ensures
        mapped is None ==> r == Err::<Vec<u32>, LevenshteinError>(LevenshteinError::TransferFailed),
        mapped matches Some(v) ==> (r is Ok <==> v@.len() >= word_count * word_count),
        r matches Ok(m) ==> m@ == mapped->Some_0@.take(word_count * word_count),
        r is Err ==> r == Err::<Vec<u32>, LevenshteinError>(LevenshteinError::TransferFailed),
{
    let mut values = match mapped {
        Some(v) => v,
        None => {
            return Err(LevenshteinError::TransferFailed);
        },
    };
    let len = values.len();
    let cells = match word_count.checked_mul(word_count) {
        Some(c) => c,
        None => {
            return Err(LevenshteinError::TransferFailed);
        },
    };
    if len < cells {
        return Err(LevenshteinError::TransferFailed);
    }
    values.truncate(cells);
    Ok(values)
}

} // verus!
