//! Compressors: which arrays each encoder takes, what it costs, and how the encoder of
//! sparse arrays compresses the children of one.

use vstd::prelude::*;

use crate::array::{ArrayData, EncodingId, SparseArray};
use crate::builders::all_conform;
use crate::canonical::{canonical_encoding, into_canonical};
use crate::compute::scalar_at::copy_range;
use crate::dtype::{Nullability, PType};
use crate::error::VortexError;

verus! {

/// The cost of the sparse encoder.
pub const SPARSE_COST: u8 = 1;

/// The cost of the roaring boolean encoder.
pub const ROARING_BOOL_COST: u8 = 2;

/// The cost of the ALP-RD encoder.
pub const ALP_RD_COST: u8 = 2;

/// The depth to which a compressor descends into children by default.
pub const DEFAULT_DEPTH: u8 = 3;

/// The recipe by which an array was compressed: the encoder, and the recipes of the
/// children that it produced.
#[derive(Debug)]
pub struct CompressionTree {
    pub compressor: EncodingId,
    pub children: Vec<Option<CompressionTree>>,
}

/// An array as a compressor left it, with the recipe if an encoder was applied.
#[derive(Debug)]
pub struct CompressedArray {
    pub array: ArrayData,
    pub path: Option<CompressionTree>,
}

/// The context of a compression: how many levels of children may still be compressed.
#[derive(Clone, Copy, Debug)]
pub struct SamplingCompressor {
    pub depth: u8,
}

/// The encoder of sparse arrays.
#[derive(Clone, Copy, Debug)]
pub struct SparseCompressor;

/// The encoder of non-nullable booleans as roaring bitmaps.
#[derive(Clone, Copy, Debug)]
pub struct RoaringBoolCompressor;

/// The ALP-RD encoder of 32- and 64-bit floats.
#[derive(Clone, Copy, Debug)]
pub struct ALPRDCompressor;

impl CompressionTree {
    /// The recipe of an encoder that produced no children.
    pub fn flat(compressor: EncodingId) -> (r: CompressionTree)
        ensures
            r.compressor == compressor,
            r.children@.len() == 0,
    {
        CompressionTree { compressor, children: Vec::new() }
    }

    /// The recipe of an encoder with the recipes of its children.
    pub fn new(compressor: EncodingId, children: Vec<Option<CompressionTree>>) -> (r: CompressionTree)
        ensures
            r.compressor == compressor,
            r.children == children,
    {
        CompressionTree { compressor, children }
    }

    /// The recipe of child `idx`, if there is one.
    pub fn child(&self, idx: usize) -> (r: Option<&CompressionTree>)
        ensures
            r is Some <==> idx < self.children@.len() && self.children@[idx as int] is Some,
            r is Some ==> *r->Some_0 == self.children@[idx as int]->Some_0,
    {
        if idx < self.children.len() {
            match &self.children[idx] {
                Some(c) => Some(c),
                None => None,
            }
        } else {
            None
        }
    }
}

impl CompressedArray {
    /// An array that no encoder was applied to.
    pub fn uncompressed(array: ArrayData) -> (r: CompressedArray)
        ensures
            r.array == array,
            r.path is None,
    {
        CompressedArray { array, path: None }
    }

    /// An array with the recipe by which it was compressed.
    pub fn compressed(array: ArrayData, path: Option<CompressionTree>) -> (r: CompressedArray)
        ensures
            r.array == array,
            r.path == path,
    {
        CompressedArray { array, path }
    }
}

impl SamplingCompressor {
    /// A compressor that descends to the default depth.
    pub fn new() -> (r: SamplingCompressor)
        ensures
            r.depth == DEFAULT_DEPTH,
    {
        SamplingCompressor { depth: DEFAULT_DEPTH }
    }

    /// The context for an auxiliary child, such as positions.
    pub fn auxiliary(&self, _name: &str) -> (r: SamplingCompressor)
        ensures
            r.depth == self.depth,
    {
        *self
    }

    /// The context for a named child.
    pub fn named(&self, _name: &str) -> (r: SamplingCompressor)
        ensures
            r.depth == self.depth,
    {
        *self
    }

    /// The context one level further down.
    pub fn descend(&self) -> (r: SamplingCompressor)
        requires
            self.depth > 0,
        ensures
            r.depth == self.depth - 1,
    {
        SamplingCompressor { depth: self.depth - 1 }
    }

    /// Compresses an array with the encoders that take it, as far down as the depth allows.
    /// The result holds the elements that the array held, under the same dtype. Only the
    /// sparse encoder is at hand. An array that it does not take, and any array once the
    /// depth is used up, is stored without a recipe and in canonical form; only an array
    /// that cannot be brought to canonical form, for an element that is no value of its
    /// dtype, may be stored as it is.
    pub fn compress(&self, array: &ArrayData, like: Option<&CompressionTree>) -> (r: Result<
        CompressedArray,
        VortexError,
    >)
        requires
            array.wf(),
        ensures
            r is Ok,
            r->Ok_0.array.wf(),
            r->Ok_0.array@ == array@,
            r->Ok_0.path is Some <==> self.depth > 0 && array is Sparse,
            r->Ok_0.path is None ==> r->Ok_0.array.spec_encoding() == canonical_encoding(
                array.dtype_spec(),
            ) || (!all_conform(array.dtype_spec(), array.elements()) && r->Ok_0.array.spec_encoding()
                == array.spec_encoding()),
        decreases self.depth, 1int,
    {
        if self.depth > 0 {
            let encoder = SparseCompressor;
            if encoder.can_compress(array) {
                return encoder.compress(array, like, self.descend());
            }
        }
        match into_canonical(array.clone()) {
            Ok(canonical) => Ok(CompressedArray::uncompressed(canonical.into_array())),
            Err(_) => Ok(CompressedArray::uncompressed(array.clone())),
        }
    }
}

impl SparseCompressor {
    pub fn id(&self) -> (r: EncodingId)
        ensures
            r == EncodingId::Sparse,
    {
        EncodingId::Sparse
    }

    pub fn cost(&self) -> (r: u8)
        ensures
            r == SPARSE_COST,
    {
        SPARSE_COST
    }

    /// Whether the encoder takes the array: only one that is sparse already.
    pub fn can_compress(&self, array: &ArrayData) -> (r: bool)
        ensures
            r == (array is Sparse),
    {
        array.is_encoding(EncodingId::Sparse)
    }

    /// Compresses the values of a sparse array and puts the array together again, under
    /// the same fill. The recipe holds a place for the positions, which are kept as they
    /// are, and the recipe of the values. An array that is not sparse is refused with `InvalidArgument`.
    pub fn compress(&self, array: &ArrayData, like: Option<&CompressionTree>, ctx: SamplingCompressor) -> (r:
        Result<CompressedArray, VortexError>)
        requires
            array.wf(),
        ensures
            r is Ok <==> array is Sparse,
            r is Err ==> r->Err_0 == VortexError::InvalidArgument,
            r is Ok ==> {
                &&& r->Ok_0.array.wf()
                &&& r->Ok_0.array is Sparse
                &&& r->Ok_0.array@ == array@
                &&& r->Ok_0.array->Sparse_0.indices@ == array->Sparse_0.indices@
                &&& r->Ok_0.array->Sparse_0.indices_offset == array->Sparse_0.indices_offset
                &&& r->Ok_0.array->Sparse_0.values@ == array->Sparse_0.values@
                &&& r->Ok_0.array->Sparse_0.fill@ == array->Sparse_0.fill@
                &&& r->Ok_0.array->Sparse_0.len == array->Sparse_0.len
                &&& r->Ok_0.path is Some
                &&& r->Ok_0.path->Some_0.compressor == EncodingId::Sparse
                &&& r->Ok_0.path->Some_0.children@.len() == 2
                &&& r->Ok_0.path->Some_0.children@[0] is None
                &&& r->Ok_0.path->Some_0.children@[1] is Some <==> ctx.depth > 0
                    && *array->Sparse_0.values is Sparse
            },
        decreases ctx.depth, 2int,
    {
        let sparse_array = match array {
            ArrayData::Sparse(s) => s,
            _ => {
                return Err(VortexError::InvalidArgument);
            },
        };
        let values_like = match like {
            Some(l) => l.child(1),
            None => None,
        };
        let values = match ctx.named("values").compress(&sparse_array.values, values_like) {
            Ok(v) => v,
            Err(e) => {
                return Err(VortexError::InvalidArgument);
            },
        };
        let indices = copy_range(&sparse_array.indices, 0, sparse_array.indices.len());
        assert(indices@ =~= sparse_array.indices@);
        let compressed = SparseArray {
            indices,
            values: Box::new(values.array),
            len: sparse_array.len,
            indices_offset: sparse_array.indices_offset,
            fill: sparse_array.fill.clone(),
        };
        let mut children: Vec<Option<CompressionTree>> = Vec::new();
        children.push(None);
        children.push(values.path);
        Ok(
            CompressedArray::compressed(
                ArrayData::Sparse(compressed),
                Some(CompressionTree::new(EncodingId::Sparse, children)),
            ),
        )
    }

    /// The encodings that the encoder's output is made of.
    pub fn used_encodings(&self) -> (r: Vec<EncodingId>)
        ensures
            r@ == seq![EncodingId::Sparse],
    {
        let mut out: Vec<EncodingId> = Vec::new();
        out.push(EncodingId::Sparse);
        out
    }
}

/// Compressing keeps the canonical form: an array and what a compressor made of it come to
/// canonical arrays with the same elements under the same dtype.
pub proof fn law_canonical_round_trip(
    array: ArrayData,
    compressed: CompressedArray,
    canonical: crate::canonical::Canonical,
    canonical_of_compressed: crate::canonical::Canonical,
)
    requires
        compressed.array@ == array@,
        canonical.array()@ == array@,
        canonical_of_compressed.array()@ == compressed.array@,
    ensures
        canonical_of_compressed.array()@ == canonical.array()@,
{
}

impl RoaringBoolCompressor {
    pub fn id(&self) -> (r: EncodingId)
        ensures
            r == EncodingId::RoaringBool,
    {
        EncodingId::RoaringBool
    }

    pub fn cost(&self) -> (r: u8)
        ensures
            r == ROARING_BOOL_COST,
    {
        ROARING_BOOL_COST
    }

    /// Whether the encoder takes the array: one in the boolean encoding, not nullable, of
    /// at most `u32::MAX` elements.
    pub fn can_compress(&self, array: &ArrayData) -> (r: bool)
        requires
            array.wf(),
        ensures
            r == (array is Bool && array->Bool_0.validity.spec_nullability() == Nullability::NonNullable
                && array.elements().len() <= u32::MAX),
    {
        match array {
            ArrayData::Bool(b) => {
                match b.validity.nullability() {
                    Nullability::NonNullable => b.values.len() <= u32::MAX as usize,
                    Nullability::Nullable => false,
                }
            },
            _ => false,
        }
    }

    /// The encodings that the encoder's output is made of.
    pub fn used_encodings(&self) -> (r: Vec<EncodingId>)
        ensures
            r@ == seq![EncodingId::RoaringBool],
    {
        let mut out: Vec<EncodingId> = Vec::new();
        out.push(EncodingId::RoaringBool);
        out
    }
}

impl ALPRDCompressor {
    pub fn id(&self) -> (r: EncodingId)
        ensures
            r == EncodingId::ALPRD,
    {
        EncodingId::ALPRD
    }

    pub fn cost(&self) -> (r: u8)
        ensures
            r == ALP_RD_COST,
    {
        ALP_RD_COST
    }

    /// Whether the encoder takes the array: one in the primitive encoding, of 32- or 64-bit
    /// floats.
    pub fn can_compress(&self, array: &ArrayData) -> (r: bool)
        ensures
            r == (array is Primitive && (array->Primitive_0.ptype == PType::F32
                || array->Primitive_0.ptype == PType::F64)),
    {
        match array {
            ArrayData::Primitive(p) => match p.ptype {
                PType::F32 | PType::F64 => true,
                _ => false,
            },
            _ => false,
        }
    }

    /// The encodings that the encoder's output is made of.
    pub fn used_encodings(&self) -> (r: Vec<EncodingId>)
        ensures
            r@ == seq![EncodingId::ALPRD, EncodingId::BitPacked],
    {
        let mut out: Vec<EncodingId> = Vec::new();
        out.push(EncodingId::ALPRD);
        out.push(EncodingId::BitPacked);
        out
    }
}

} // verus!
