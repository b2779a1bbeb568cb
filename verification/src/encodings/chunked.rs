//! Chunked arrays: construction and addressing.

use vstd::prelude::*;

use crate::array::{concat_elements, lemma_concat_len_monotone, ArrayData, ChunkedArray};
use crate::compute::search_sorted::{keys_sorted, search_sorted, u64_keys, SearchSortedSide};
use crate::dtype::DType;
use crate::error::VortexError;

verus! {

/// Whether ends never decrease.
pub open spec fn ends_sorted(ends: Seq<u64>) -> bool {
    forall|i: int, j: int| 0 <= i <= j < ends.len() ==> ends[i] <= ends[j]
}

/// The chunk that holds position `idx`, and the position within that chunk, from the chunk
/// ends alone. Empty chunks are passed over. A position at or past the last end is
/// addressed in the last chunk.
pub fn find_chunk_idx(idx: usize, chunk_ends: &Vec<u64>) -> (r: (usize, usize))
    requires
        chunk_ends@.len() >= 1,
        ends_sorted(chunk_ends@),
        chunk_ends@[0] <= idx,
    ensures
        r.0 < chunk_ends@.len(),
        chunk_ends@[r.0 as int] + r.1 == idx,
        idx < chunk_ends@[chunk_ends@.len() - 1] ==> r.0 + 1 < chunk_ends@.len() && idx
            < chunk_ends@[r.0 + 1],
        idx >= chunk_ends@[chunk_ends@.len() - 1] ==> r.0 == (if chunk_ends@.len() >= 2 {
            chunk_ends@.len() - 2
        } else {
            0
        }),
{
    let ghost keys = u64_keys(chunk_ends@);
    assert(keys_sorted(keys)) by {
        assert forall|i: int, j: int| 0 <= i <= j < keys.len() implies crate::compute::search_sorted::key_le(#[trigger] keys[i], #[trigger] keys[j]) by {
            assert(chunk_ends@[i] <= chunk_ends@[j]);
        }
    }
    let found = search_sorted(chunk_ends, idx as u64, SearchSortedSide::Right);
    let n = chunk_ends.len();
    let p = found.to_ends_index(n);
    let chunk_id = if p == 0 {
        0
    } else {
        p - 1
    };
    proof {
        let i = found.spec_to_index() as int;
        assert(keys[0] == Some(chunk_ends@[0] as int));
        assert(i >= 1) by {
            if i == 0 {
                assert(crate::compute::search_sorted::key_order(keys[0], idx as int)
                    == crate::compute::search_sorted::Order::Greater);
            }
        }
        assert(keys[i - 1] == Some(chunk_ends@[i - 1] as int));
        if i < n {
            assert(keys[i] == Some(chunk_ends@[i] as int));
        }
        assert(keys[n - 1] == Some(chunk_ends@[n - 1] as int));
        if chunk_id < n {
            assert(keys[chunk_id as int] == Some(chunk_ends@[chunk_id as int] as int));
        }
    }
    let chunk_begin = chunk_ends[chunk_id] as usize;
    (chunk_id, idx - chunk_begin)
}

impl ChunkedArray {
    /// Lays chunks of one dtype end to end. A chunk of another dtype is refused with
    /// `MismatchedTypes`; a total length that does not fit `usize` with `InvalidArgument`.
    pub fn try_new(chunks: Vec<ArrayData>, dtype: DType) -> (r: Result<ChunkedArray, VortexError>)
        requires
            forall|k: int| 0 <= k < chunks@.len() ==> (#[trigger] chunks@[k]).wf(),
        ensures
            (exists|k: int| 0 <= k < chunks@.len() && (#[trigger] chunks@[k]).dtype_spec() != dtype@)
                ==> r == Err::<ChunkedArray, VortexError>(VortexError::MismatchedTypes),
            (forall|k: int| 0 <= k < chunks@.len() ==> (#[trigger] chunks@[k]).dtype_spec() == dtype@)
                ==> (if concat_elements(chunks@, chunks@.len() as int).len() <= usize::MAX {
                r is Ok
            } else {
                r == Err::<ChunkedArray, VortexError>(VortexError::InvalidArgument)
            }),
            r is Ok ==> {
                &&& r->Ok_0.wf()
                &&& r->Ok_0.chunks == chunks
                &&& r->Ok_0.dtype == dtype
            },
    {
        let n = chunks.len();
        let mut k: usize = 0;
        while k < n
            invariant
                n == chunks@.len(),
                k <= n,
                forall|j: int| 0 <= j < k ==> (#[trigger] chunks@[j]).dtype_spec() == dtype@,
            decreases n - k,
        {
            let d = chunks[k].dtype();
            if !d.eq(&dtype) {
                return Err(VortexError::MismatchedTypes);
            }
            k += 1;
        }
        match Self::chunk_ends_of(&chunks) {
            Some(chunk_ends) => Ok(ChunkedArray { dtype, chunks, chunk_ends }),
            None => Err(VortexError::InvalidArgument),
        }
    }

    /// Where each chunk begins and the last one ends, unless the total length does not fit
    /// `usize`.
    pub fn chunk_ends_of(chunks: &Vec<ArrayData>) -> (r: Option<Vec<u64>>)
        requires
            forall|k: int| 0 <= k < chunks@.len() ==> (#[trigger] chunks@[k]).wf(),
        ensures
            r is Some <==> concat_elements(chunks@, chunks@.len() as int).len() <= usize::MAX,
            r is Some ==> {
                &&& r->Some_0@.len() == chunks@.len() + 1
                &&& forall|j: int| 0 <= j <= chunks@.len() ==> (#[trigger] r->Some_0@[j]) == concat_elements(chunks@, j).len()
            },
    {
        let n = chunks.len();
        let mut chunk_ends: Vec<u64> = Vec::new();
        chunk_ends.push(0);
        let mut total: usize = 0;
        let mut i: usize = 0;
        while i < n
            invariant
                n == chunks@.len(),
                i <= n,
                forall|j: int| 0 <= j < n ==> (#[trigger] chunks@[j]).wf(),
                chunk_ends@.len() == i + 1,
                total == concat_elements(chunks@, i as int).len(),
                forall|j: int| 0 <= j <= i ==> (#[trigger] chunk_ends@[j]) == concat_elements(chunks@, j).len(),
            decreases n - i,
        {
            let len = chunks[i].len();
            if len > usize::MAX - total {
                proof {
                    lemma_concat_len_monotone(chunks@, i + 1, n as int);
                }
                return None;
            }
            total = total + len;
            chunk_ends.push(total as u64);
            i += 1;
        }
        Some(chunk_ends)
    }

    /// Chunks of the given dtype laid end to end, where their total length is known to fit.
    pub fn from_chunks(chunks: Vec<ArrayData>, dtype: DType) -> (r: ChunkedArray)
        requires
            forall|k: int| 0 <= k < chunks@.len() ==> (#[trigger] chunks@[k]).wf(),
            forall|k: int| 0 <= k < chunks@.len() ==> (#[trigger] chunks@[k]).dtype_spec() == dtype@,
            concat_elements(chunks@, chunks@.len() as int).len() <= usize::MAX,
        ensures
            r.wf(),
            r.chunks == chunks,
            r.dtype == dtype,
    {
        match Self::chunk_ends_of(&chunks) {
            Some(chunk_ends) => ChunkedArray { dtype, chunks, chunk_ends },
            None => vstd::pervasive::unreached(),
        }
    }

    pub fn nchunks(&self) -> (r: usize)
        ensures r == self.chunks@.len(),
    {
        self.chunks.len()
    }

    /// Chunk `idx`, if there is one.
    pub fn chunk(&self, idx: usize) -> (r: Option<&ArrayData>)
        ensures
            r is Some <==> idx < self.chunks@.len(),
            r is Some ==> *r->Some_0 == self.chunks@[idx as int],
    {
        if idx < self.chunks.len() {
            Some(&self.chunks[idx])
        } else {
            None
        }
    }

    /// Where each chunk begins and the last one ends.
    pub fn chunk_offsets(&self) -> (r: &Vec<u64>)
        ensures *r == self.chunk_ends,
    {
        &self.chunk_ends
    }

    /// The ends of a well-formed chunked array never decrease.
    pub proof fn lemma_ends_sorted(self)
        requires self.wf_shallow(),
        ensures
            ends_sorted(self.chunk_ends@),
            self.chunk_ends@[0] == 0,
    {
        assert forall|i: int, j: int| 0 <= i <= j < self.chunk_ends@.len() implies self.chunk_ends@[i] <= self.chunk_ends@[j] by {
            lemma_concat_len_monotone(self.chunks@, i, j);
        }
    }

    pub fn into_array(self) -> (r: ArrayData)
        ensures r == ArrayData::Chunked(self),
    {
        ArrayData::Chunked(self)
    }
}

} // verus!
