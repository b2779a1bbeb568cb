//! Framing for streams: where the buffers of a batch lie, and how a page is padded.

use vstd::prelude::*;

use crate::array::ArrayData;
use crate::dtype::DType;
use crate::error::VortexError;
use crate::tree::{align_up, aligned_offsets, buffer_sizes, lemma_align_up_bounds, sizes_view};

verus! {

/// The alignment of every buffer in a stream, in bytes.
pub const ALIGNMENT: usize = 64;

/// Where one buffer of a batch lies: its offset among the batch's buffers, and the padding
/// after it.
#[derive(Clone, Copy, Debug, PartialEq, Eq, Structural)]
pub struct Buffer {
    pub offset: u64,
    pub padding: u16,
}

/// The header of a batch: its length in rows, one entry per buffer in depth-first order,
/// and the size of all buffers with their padding.
#[derive(Debug)]
pub struct BatchHeader {
    pub length: u64,
    pub buffers: Vec<Buffer>,
    pub buffer_size: u64,
}

/// The header of a page: the size of its buffer and the padding after it.
#[derive(Clone, Copy, Debug, PartialEq, Eq, Structural)]
pub struct PageHeader {
    pub buffer_size: u32,
    pub padding: u16,
}

/// A schema message: the dtype of the stream.
pub struct IPCSchema<'a>(pub &'a DType);

/// A batch message: one array.
pub struct IPCBatch<'a>(pub &'a ArrayData);

/// An array within a batch, with the index of the first buffer of its subtree.
pub struct IPCArray<'a>(pub &'a ArrayData, pub usize);

/// A page message: one raw buffer.
pub struct IPCPage<'a>(pub &'a Vec<u8>);

/// A message of a stream.
pub enum IPCMessage<'a> {
    Schema(IPCSchema<'a>),
    Batch(IPCBatch<'a>),
    Page(IPCPage<'a>),
}

/// The kinds of message, as they are numbered in a stream.
#[derive(Clone, Copy, Debug, PartialEq, Eq, Structural)]
pub enum MessageHeader {
    Schema,
    Batch,
    Page,
}

impl<'a> IPCMessage<'a> {
    /// The kind of the message.
    pub fn header_type(&self) -> (r: MessageHeader)
        ensures
            r == (match self {
                IPCMessage::Schema(_) => MessageHeader::Schema,
                IPCMessage::Batch(_) => MessageHeader::Batch,
                IPCMessage::Page(_) => MessageHeader::Page,
            }),
    {
        match self {
            IPCMessage::Schema(_) => MessageHeader::Schema,
            IPCMessage::Batch(_) => MessageHeader::Batch,
            IPCMessage::Page(_) => MessageHeader::Page,
        }
    }
}

impl<'a> IPCPage<'a> {
    /// The header of the page. A buffer whose size does not fit 32 bits is refused with
    /// `InvalidArgument`.
    pub fn header(&self) -> (r: Result<PageHeader, VortexError>)
        ensures
            r is Ok <==> self.0@.len() <= u32::MAX,
            r is Err ==> r->Err_0 == VortexError::InvalidArgument,
            r is Ok ==> r->Ok_0.buffer_size == self.0@.len() && r->Ok_0.buffer_size
                + r->Ok_0.padding == align_up(self.0@.len() as int, ALIGNMENT as int),
    {
        let buffer_size = self.0.len();
        if buffer_size > u32::MAX as usize {
            return Err(VortexError::InvalidArgument);
        }
        proof {
            lemma_align_up_bounds(buffer_size as int, ALIGNMENT as int);
        }
        let aligned_size = ((buffer_size as u64 + (ALIGNMENT as u64 - 1)) / ALIGNMENT as u64)
            * ALIGNMENT as u64;
        let padding_size = aligned_size - buffer_size as u64;
        Ok(PageHeader { buffer_size: buffer_size as u32, padding: padding_size as u16 })
    }
}

impl<'a> IPCBatch<'a> {
    /// The header of the batch: the array's buffers in depth-first order, each at the
    /// offset at which it lies when every buffer is padded to the alignment, with its
    /// padding. Buffers that end past `u64` are refused with `InvalidArgument`.
    #[verifier::rlimit(40)]
    pub fn header(&self) -> (r: Result<BatchHeader, VortexError>)
        requires
            self.0.wf(),
        ensures
            r is Ok <==> aligned_offsets(buffer_sizes(*self.0), ALIGNMENT as int).last() <= u64::MAX,
            r is Err ==> r->Err_0 == VortexError::InvalidArgument,
            r is Ok ==> {
                let h = r->Ok_0;
                let sizes = buffer_sizes(*self.0);
                let offsets = aligned_offsets(sizes, ALIGNMENT as int);
                &&& h.length == self.0.elements().len()
                &&& h.buffers@.len() == sizes.len()
                &&& h.buffer_size == offsets.last()
                &&& forall|k: int| 0 <= k < sizes.len() ==> (#[trigger] h.buffers@[k]).offset == offsets[k]
                    && sizes[k] + h.buffers@[k].padding == align_up(sizes[k], ALIGNMENT as int)
            },
    {
        let array_data = self.0;
        let length = array_data.len() as u64;
        let sizes = array_data.buffer_sizes();
        let ghost sv = sizes_view(sizes@);
        assert(sv.len() == sizes@.len());
        let offsets = match crate::tree::offsets_of(&sizes, ALIGNMENT) {
            Ok(o) => o,
            Err(e) => {
                return Err(e);
            },
        };
        let ghost want = aligned_offsets(sv, ALIGNMENT as int);
        let mut buffers: Vec<Buffer> = Vec::new();
        let mut k: usize = 0;
        while k < sizes.len()
            invariant
                sv == sizes_view(sizes@),
                want == aligned_offsets(sv, ALIGNMENT as int),
                offsets@.len() == sizes@.len() + 1,
                forall|j: int| 0 <= j <= sizes@.len() ==> (#[trigger] offsets@[j]) == want[j],
                k <= sizes@.len(),
                buffers@.len() == k,
                forall|j: int| 0 <= j < k ==> (#[trigger] buffers@[j]).offset == want[j] && sv[j]
                    + buffers@[j].padding == align_up(sv[j], ALIGNMENT as int),
            decreases sizes@.len() - k,
        {
            proof {
                lemma_offsets_step(sv, ALIGNMENT as int, k as int);
                lemma_align_up_bounds(sv[k as int], ALIGNMENT as int);
                assert(sv[k as int] == sizes@[k as int]);
            }
            let aligned_size = offsets[k + 1] - offsets[k];
            let padding = aligned_size as u128 - sizes[k];
            buffers.push(Buffer { offset: offsets[k], padding: padding as u16 });
            k += 1;
        }
        let buffer_size = offsets[sizes.len()];
        proof {
            crate::tree::lemma_offsets_len(sv, ALIGNMENT as int);
        }
        Ok(BatchHeader { length, buffers, buffer_size })
    }
}

/// Each buffer ends, padded, where the next begins.
pub proof fn lemma_offsets_step(sizes: Seq<int>, alignment: int, k: int)
    requires
        0 <= k < sizes.len(),
    ensures
        aligned_offsets(sizes, alignment).len() == sizes.len() + 1,
        aligned_offsets(sizes, alignment)[k + 1] == aligned_offsets(sizes, alignment)[k] + align_up(
            sizes[k],
            alignment,
        ),
    decreases sizes.len(),
{
    crate::tree::lemma_offsets_len(sizes, alignment);
    crate::tree::lemma_offsets_len(sizes.drop_last(), alignment);
    if k < sizes.len() - 1 {
        lemma_offsets_step(sizes.drop_last(), alignment, k);
    }
}

impl<'a> IPCArray<'a> {
    /// The index of the first buffer of each child's subtree, given how many buffers the
    /// node holds itself and how many each child's subtree holds: the children's buffers
    /// follow the node's own, child after child. `None` where an index does not fit `usize`.
    pub fn child_buffer_indices(&self, own_buffers: usize, child_nbuffers: &Vec<usize>) -> (r: Option<
        Vec<usize>,
    >)
        ensures
            r is Some <==> self.1 + own_buffers + sum_counts(child_nbuffers@, child_nbuffers@.len() as int)
                <= usize::MAX,
            r is Some ==> r->Some_0@.len() == child_nbuffers@.len() && forall|i: int|
                0 <= i < child_nbuffers@.len() ==> (#[trigger] r->Some_0@[i]) == self.1 + own_buffers
                    + sum_counts(child_nbuffers@, i),
    {
        if own_buffers > usize::MAX - self.1 {
            proof {
                lemma_sum_counts_nonneg(child_nbuffers@, child_nbuffers@.len() as int);
            }
            return None;
        }
        let mut buffer_offset = self.1 + own_buffers;
        let mut out: Vec<usize> = Vec::new();
        let mut i: usize = 0;
        while i < child_nbuffers.len()
            invariant
                i <= child_nbuffers@.len(),
                out@.len() == i,
                buffer_offset == self.1 + own_buffers + sum_counts(child_nbuffers@, i as int),
                forall|j: int| 0 <= j < i ==> (#[trigger] out@[j]) == self.1 + own_buffers + sum_counts(
                    child_nbuffers@,
                    j,
                ),
            decreases child_nbuffers@.len() - i,
        {
            out.push(buffer_offset);
            if child_nbuffers[i] > usize::MAX - buffer_offset {
                proof {
                    lemma_sum_counts_monotone(child_nbuffers@, i + 1, child_nbuffers@.len() as int);
                }
                return None;
            }
            buffer_offset = buffer_offset + child_nbuffers[i];
            i += 1;
        }
        Some(out)
    }
}

/// The sum of the first `n` counts.
pub open spec fn sum_counts(counts: Seq<usize>, n: int) -> int
    decreases n,
{
    if n <= 0 || n > counts.len() {
        0
    } else {
        sum_counts(counts, n - 1) + counts[n - 1]
    }
}

/// A sum of counts is not negative.
pub proof fn lemma_sum_counts_nonneg(counts: Seq<usize>, n: int)
    ensures
        sum_counts(counts, n) >= 0,
    decreases n,
{
    if 0 < n <= counts.len() {
        lemma_sum_counts_nonneg(counts, n - 1);
    }
}

/// The sum of the first `k` counts is no more than that of the first `n`.
pub proof fn lemma_sum_counts_monotone(counts: Seq<usize>, k: int, n: int)
    requires
        0 <= k <= n <= counts.len(),
    ensures
        sum_counts(counts, k) <= sum_counts(counts, n),
    decreases n - k,
{
    if k < n {
        lemma_sum_counts_monotone(counts, k, n - 1);
    }
}

} // verus!
