//! The array model: one node type with many encodings, and what each encoding means.
//!
//! An array is a tree. Whatever its encoding, it stands for a sequence of logical elements of
//! one dtype: [`ArrayData::elements`] and [`ArrayData::dtype_spec`] say which, and every
//! kernel's contract is stated over them.

use vstd::prelude::*;

use crate::dtype::{DType, DTypeView, PType};
use crate::scalar::{Datum, Scalar};
use crate::validity::Validity;

verus! {

/// What an array is in specifications: its dtype and its elements, encoding forgotten.
pub struct ArrayView {
    pub dtype: DTypeView,
    pub elements: Seq<Datum>,
}

/// The stable 16-bit codes of the encodings.
#[derive(Clone, Copy, Debug, PartialEq, Eq, Structural, Hash)]
pub enum EncodingId {
    Null,
    Bool,
    Primitive,
    Struct,
    VarBin,
    VarBinView,
    Extension,
    Sparse,
    Constant,
    Chunked,
    List,
    ALPRD,
    BitPacked,
    FSST,
    RoaringBool,
}

impl EncodingId {
    pub open spec fn spec_code(self) -> u16 {
        match self {
            EncodingId::Null => 1,
            EncodingId::Bool => 2,
            EncodingId::Primitive => 3,
            EncodingId::Struct => 4,
            EncodingId::VarBin => 5,
            EncodingId::VarBinView => 6,
            EncodingId::Extension => 7,
            EncodingId::Sparse => 8,
            EncodingId::Constant => 9,
            EncodingId::Chunked => 10,
            EncodingId::List => 15,
            EncodingId::ALPRD => 11,
            EncodingId::BitPacked => 12,
            EncodingId::FSST => 13,
            EncodingId::RoaringBool => 14,
        }
    }

    /// The code under which the encoding is written to files and streams.
    pub fn code(self) -> (r: u16)
        ensures r == self.spec_code(),
    {
        match self {
            EncodingId::Null => 1,
            EncodingId::Bool => 2,
            EncodingId::Primitive => 3,
            EncodingId::Struct => 4,
            EncodingId::VarBin => 5,
            EncodingId::VarBinView => 6,
            EncodingId::Extension => 7,
            EncodingId::Sparse => 8,
            EncodingId::Constant => 9,
            EncodingId::Chunked => 10,
            EncodingId::List => 15,
            EncodingId::ALPRD => 11,
            EncodingId::BitPacked => 12,
            EncodingId::FSST => 13,
            EncodingId::RoaringBool => 14,
        }
    }

    /// Whether the encoding is the canonical one of some dtype.
    pub open spec fn spec_is_canonical(self) -> bool {
        self == EncodingId::Null || self == EncodingId::Bool || self == EncodingId::Primitive
            || self == EncodingId::Struct || self == EncodingId::VarBinView || self
            == EncodingId::Extension || self == EncodingId::List
    }

    /// The name of the encoding.
    pub open spec fn spec_name(self) -> Seq<char> {
        match self {
            EncodingId::Null => "vortex.null"@,
            EncodingId::Bool => "vortex.bool"@,
            EncodingId::Primitive => "vortex.primitive"@,
            EncodingId::Struct => "vortex.struct"@,
            EncodingId::VarBin => "vortex.varbin"@,
            EncodingId::VarBinView => "vortex.varbinview"@,
            EncodingId::Extension => "vortex.ext"@,
            EncodingId::Sparse => "vortex.sparse"@,
            EncodingId::Constant => "vortex.constant"@,
            EncodingId::Chunked => "vortex.chunked"@,
            EncodingId::List => "vortex.list"@,
            EncodingId::ALPRD => "vortex.alprd"@,
            EncodingId::BitPacked => "fastlanes.bitpacked"@,
            EncodingId::FSST => "vortex.fsst"@,
            EncodingId::RoaringBool => "vortex.roaring_bool"@,
        }
    }

    /// The name of the encoding.
    pub fn name(self) -> (r: &'static str)
        ensures
            r@ == self.spec_name(),
    {
        match self {
            EncodingId::Null => "vortex.null",
            EncodingId::Bool => "vortex.bool",
            EncodingId::Primitive => "vortex.primitive",
            EncodingId::Struct => "vortex.struct",
            EncodingId::VarBin => "vortex.varbin",
            EncodingId::VarBinView => "vortex.varbinview",
            EncodingId::Extension => "vortex.ext",
            EncodingId::Sparse => "vortex.sparse",
            EncodingId::Constant => "vortex.constant",
            EncodingId::Chunked => "vortex.chunked",
            EncodingId::List => "vortex.list",
            EncodingId::ALPRD => "vortex.alprd",
            EncodingId::BitPacked => "fastlanes.bitpacked",
            EncodingId::FSST => "vortex.fsst",
            EncodingId::RoaringBool => "vortex.roaring_bool",
        }
    }
}

/// `len` nulls.
#[derive(Debug)]
pub struct NullArray {
    pub len: usize,
}

/// Booleans with their validity.
#[derive(Debug)]
pub struct BoolArray {
    pub values: Vec<bool>,
    pub validity: Validity,
}

/// Primitive values of one ptype with their validity. A value is carried as an integer: an
/// integer ptype's by value, a float ptype's by its bits.
#[derive(Debug)]
pub struct PrimitiveArray {
    pub ptype: PType,
    pub values: Vec<i128>,
    pub validity: Validity,
}

/// Variable-length binary or UTF-8 values: element `i` is `bytes[offsets[i]..offsets[i + 1]]`.
#[derive(Debug)]
pub struct VarBinArray {
    pub dtype: DType,
    pub offsets_ptype: PType,
    pub offsets: Vec<usize>,
    pub bytes: Vec<u8>,
    pub validity: Validity,
}

/// The canonical form of binary and UTF-8 data: one byte string per element.
#[derive(Debug)]
pub struct VarBinViewArray {
    pub dtype: DType,
    pub values: Vec<Vec<u8>>,
    pub validity: Validity,
}

/// Rows of named fields: one child array per field, all of the struct's length.
#[derive(Debug)]
pub struct StructArray {
    pub dtype: DType,
    pub fields: Vec<ArrayData>,
    pub len: usize,
    pub validity: Validity,
}

/// Lists of elements of one dtype: list `i` is `elements[offsets[i]..offsets[i + 1]]`.
/// The offsets are values of an integer ptype.
#[derive(Debug)]
pub struct ListArray {
    pub dtype: DType,
    pub elements: Box<ArrayData>,
    pub offsets_ptype: PType,
    pub offsets: Vec<usize>,
    pub validity: Validity,
}

/// An extension-typed array over its storage array.
#[derive(Debug)]
pub struct ExtensionArray {
    pub dtype: DType,
    pub storage: Box<ArrayData>,
}

/// Arrays of one dtype laid end to end. `chunk_ends[k]` is where chunk `k` begins and
/// `chunk_ends[k + 1]` where it ends.
#[derive(Debug)]
pub struct ChunkedArray {
    pub dtype: DType,
    pub chunks: Vec<ArrayData>,
    pub chunk_ends: Vec<u64>,
}

/// A fill value everywhere but at the given positions. Position `indices[k] - indices_offset`
/// holds element `k` of `values`.
#[derive(Debug)]
pub struct SparseArray {
    pub indices: Vec<usize>,
    pub values: Box<ArrayData>,
    pub len: usize,
    pub indices_offset: usize,
    pub fill: Scalar,
}

/// One scalar, `len` times.
#[derive(Debug)]
pub struct ConstantArray {
    pub scalar: Scalar,
    pub len: usize,
}

/// An array in any encoding.
#[derive(Debug)]
pub enum ArrayData {
    Null(NullArray),
    Bool(BoolArray),
    Primitive(PrimitiveArray),
    VarBin(VarBinArray),
    VarBinView(VarBinViewArray),
    Struct(StructArray),
    List(ListArray),
    Extension(ExtensionArray),
    Chunked(ChunkedArray),
    Sparse(SparseArray),
    Constant(ConstantArray),
}

/// The lists of a list array, from the elements of its child.
pub open spec fn list_elements(child: Seq<Datum>, offsets: Seq<usize>, validity: Validity) -> Seq<
    Datum,
> {
    Seq::new(
        (offsets.len() - 1) as nat,
        |i: int|
            present(
                validity.valid_at(i),
                Datum::List(child.subrange(offsets[i] as int, offsets[i + 1] as int)),
            ),
    )
}

/// The element, or null where it is not valid.
pub open spec fn present(valid: bool, d: Datum) -> Datum {
    if valid {
        d
    } else {
        Datum::Null
    }
}

/// Whether offsets never decrease.
pub open spec fn non_decreasing(offsets: Seq<usize>) -> bool {
    forall|i: int, j: int| 0 <= i <= j < offsets.len() ==> offsets[i] <= offsets[j]
}

/// Whether indices strictly increase.
pub open spec fn strictly_increasing(indices: Seq<usize>) -> bool {
    forall|i: int, j: int| 0 <= i < j < indices.len() ==> indices[i] < indices[j]
}

/// The position of `target` in `indices`, or -1 where it does not occur.
pub open spec fn position_of(indices: Seq<usize>, target: int) -> int {
    if exists|k: int| 0 <= k < indices.len() && indices[k] == target {
        choose|k: int| 0 <= k < indices.len() && indices[k] == target
    } else {
        -1
    }
}

/// The elements of a sparse array, from the elements of its values.
pub open spec fn sparse_elements(
    indices: Seq<usize>,
    values: Seq<Datum>,
    len: int,
    indices_offset: int,
    fill: Datum,
) -> Seq<Datum> {
    Seq::new(
        len as nat,
        |i: int|
            if position_of(indices, i + indices_offset) >= 0 {
                values[position_of(indices, i + indices_offset)]
            } else {
                fill
            },
    )
}

/// The elements of the first `n` chunks, laid end to end.
pub open spec fn concat_elements(chunks: Seq<ArrayData>, n: int) -> Seq<Datum>
    decreases chunks, n,
{
    if n <= 0 || n > chunks.len() {
        Seq::empty()
    } else {
        concat_elements(chunks, n - 1) + chunks[n - 1].elements()
    }
}

/// Row `i` of a struct: element `i` of each field.
pub open spec fn struct_row(fields: Seq<ArrayData>, i: int) -> Seq<Datum>
    decreases fields, 0int,
{
    Seq::new(
        fields.len(),
        |f: int|
            if 0 <= f < fields.len() {
                fields[f].elements()[i]
            } else {
                Datum::Null
            },
    )
}

/// The dtypes of a sequence of arrays.
pub open spec fn dtypes_of(arrays: Seq<ArrayData>) -> Seq<DTypeView>
    decreases arrays, 0int,
{
    Seq::new(
        arrays.len(),
        |f: int|
            if 0 <= f < arrays.len() {
                arrays[f].dtype_spec()
            } else {
                DTypeView::Null
            },
    )
}

impl NullArray {
    pub open spec fn elements(self) -> Seq<Datum> {
        Seq::new(self.len as nat, |i: int| Datum::Null)
    }
}

impl BoolArray {
    pub open spec fn wf(self) -> bool {
        self.validity.wf(self.values@.len() as int)
    }

    pub open spec fn elements(self) -> Seq<Datum> {
        Seq::new(
            self.values@.len(),
            |i: int| present(self.validity.valid_at(i), Datum::Bool(self.values@[i])),
        )
    }

    pub open spec fn dtype_spec(self) -> DTypeView {
        DTypeView::Bool(self.validity.spec_nullability())
    }
}

impl PrimitiveArray {
    pub open spec fn wf(self) -> bool {
        &&& self.validity.wf(self.values@.len() as int)
        &&& forall|i: int| 0 <= i < self.values@.len() ==> self.ptype.holds(#[trigger] self.values@[i] as int)
    }

    pub open spec fn elements(self) -> Seq<Datum> {
        Seq::new(
            self.values@.len(),
            |i: int| present(self.validity.valid_at(i), Datum::Primitive(self.values@[i] as int)),
        )
    }

    pub open spec fn dtype_spec(self) -> DTypeView {
        DTypeView::Primitive(self.ptype, self.validity.spec_nullability())
    }
}

impl VarBinArray {
    pub open spec fn wf(self) -> bool {
        &&& self.dtype@ is Utf8 || self.dtype@ is Binary
        &&& self.dtype@.nullability() == self.validity.spec_nullability()
        &&& self.offsets_ptype.spec_is_int()
        &&& self.offsets@.len() >= 1
        &&& non_decreasing(self.offsets@)
        &&& self.offsets@[self.offsets@.len() - 1] <= self.bytes@.len()
        &&& forall|i: int| 0 <= i < self.offsets@.len() ==> self.offsets_ptype.holds(#[trigger] self.offsets@[i] as int)
        &&& self.validity.wf(self.offsets@.len() - 1)
    }

    /// The bytes of element `i`, valid or not.
    pub open spec fn bytes_of(self, i: int) -> Seq<u8> {
        self.bytes@.subrange(self.offsets@[i] as int, self.offsets@[i + 1] as int)
    }

    pub open spec fn elements(self) -> Seq<Datum> {
        Seq::new(
            (self.offsets@.len() - 1) as nat,
            |i: int| present(self.validity.valid_at(i), Datum::Bytes(self.bytes_of(i))),
        )
    }
}

impl VarBinViewArray {
    pub open spec fn wf(self) -> bool {
        &&& self.dtype@ is Utf8 || self.dtype@ is Binary
        &&& self.dtype@.nullability() == self.validity.spec_nullability()
        &&& self.validity.wf(self.values@.len() as int)
    }

    pub open spec fn elements(self) -> Seq<Datum> {
        Seq::new(
            self.values@.len(),
            |i: int| present(self.validity.valid_at(i), Datum::Bytes(self.values@[i]@)),
        )
    }
}

impl ConstantArray {
    pub open spec fn elements(self) -> Seq<Datum> {
        Seq::new(self.len as nat, |i: int| self.scalar.value@)
    }
}

impl StructArray {
    pub open spec fn elements(self) -> Seq<Datum> {
        Seq::new(
            self.len as nat,
            |i: int| present(self.validity.valid_at(i), Datum::List(struct_row(self.fields@, i))),
        )
    }

    /// The conditions on a struct array but for the well-formedness of its fields.
    pub open spec fn wf_shallow(self) -> bool {
        &&& self.dtype@ is Struct
        &&& self.dtype@->Struct_2 == self.validity.spec_nullability()
        &&& self.dtype@->Struct_0.len() == self.fields@.len()
        &&& self.dtype@->Struct_1 == dtypes_of(self.fields@)
        &&& self.validity.wf(self.len as int)
        &&& forall|f: int| 0 <= f < self.fields@.len() ==> (#[trigger] self.fields@[f]).elements().len() == self.len
    }

    pub open spec fn wf(self) -> bool {
        &&& self.wf_shallow()
        &&& forall|f: int| 0 <= f < self.fields@.len() ==> (#[trigger] self.fields@[f]).wf()
    }
}

impl ListArray {
    pub open spec fn elements(self) -> Seq<Datum> {
        list_elements(self.elements.elements(), self.offsets@, self.validity)
    }

    /// The conditions on a list array but for the well-formedness of its elements.
    pub open spec fn wf_shallow(self) -> bool {
        &&& self.dtype@ is List
        &&& *self.dtype@->List_0 == self.elements.dtype_spec()
        &&& self.dtype@->List_1 == self.validity.spec_nullability()
        &&& self.offsets@.len() >= 1
        &&& non_decreasing(self.offsets@)
        &&& self.offsets@[self.offsets@.len() - 1] <= self.elements.elements().len()
        &&& self.offsets_ptype.spec_is_int()
        &&& self.offsets_ptype.holds(self.offsets@[self.offsets@.len() - 1] as int)
        &&& self.validity.wf(self.offsets@.len() - 1)
    }

    pub open spec fn wf(self) -> bool {
        self.wf_shallow() && self.elements.wf()
    }
}

impl ExtensionArray {
    pub open spec fn elements(self) -> Seq<Datum> {
        self.storage.elements()
    }

    pub open spec fn wf_shallow(self) -> bool {
        &&& self.dtype@ is Extension
        &&& *self.dtype@->Extension_1 == self.storage.dtype_spec()
    }

    pub open spec fn wf(self) -> bool {
        self.wf_shallow() && self.storage.wf()
    }
}

impl ChunkedArray {
    pub open spec fn elements(self) -> Seq<Datum> {
        concat_elements(self.chunks@, self.chunks@.len() as int)
    }

    /// The conditions on a chunked array but for the well-formedness of its chunks.
    pub open spec fn wf_shallow(self) -> bool {
        &&& self.chunk_ends@.len() == self.chunks@.len() + 1
        &&& forall|k: int| 0 <= k <= self.chunks@.len() ==> (#[trigger] self.chunk_ends@[k]) == concat_elements(self.chunks@, k).len()
        &&& self.chunk_ends@[self.chunks@.len() as int] <= usize::MAX
        &&& forall|k: int| 0 <= k < self.chunks@.len() ==> (#[trigger] self.chunks@[k]).dtype_spec() == self.dtype@
    }

    pub open spec fn wf(self) -> bool {
        &&& self.wf_shallow()
        &&& forall|k: int| 0 <= k < self.chunks@.len() ==> (#[trigger] self.chunks@[k]).wf()
    }
}

impl SparseArray {
    pub open spec fn elements(self) -> Seq<Datum> {
        sparse_elements(
            self.indices@,
            self.values.elements(),
            self.len as int,
            self.indices_offset as int,
            self.fill.value@,
        )
    }

    /// The conditions on a sparse array but for the well-formedness of its values.
    pub open spec fn wf_shallow(self) -> bool {
        &&& self.indices@.len() == self.values.elements().len()
        &&& strictly_increasing(self.indices@)
        &&& forall|k: int| 0 <= k < self.indices@.len() ==> self.indices_offset <= (#[trigger] self.indices@[k]) < self.indices_offset + self.len
        &&& self.indices_offset + self.len <= usize::MAX
        &&& self.fill.dtype@ == self.values.dtype_spec()
    }

    pub open spec fn wf(self) -> bool {
        self.wf_shallow() && self.values.wf()
    }
}

impl ArrayData {
    /// The logical elements of the array, nulls as [`Datum::Null`].
    pub open spec fn elements(self) -> Seq<Datum>
        decreases self, 0int,
    {
        match self {
            ArrayData::Null(a) => a.elements(),
            ArrayData::Bool(a) => a.elements(),
            ArrayData::Primitive(a) => a.elements(),
            ArrayData::VarBin(a) => a.elements(),
            ArrayData::VarBinView(a) => a.elements(),
            ArrayData::Struct(a) => Seq::new(
                a.len as nat,
                |i: int| present(a.validity.valid_at(i), Datum::List(struct_row(a.fields@, i))),
            ),
            ArrayData::List(a) => list_elements(a.elements.elements(), a.offsets@, a.validity),
            ArrayData::Extension(a) => a.storage.elements(),
            ArrayData::Chunked(a) => concat_elements(a.chunks@, a.chunks@.len() as int),
            ArrayData::Sparse(a) => sparse_elements(
                a.indices@,
                a.values.elements(),
                a.len as int,
                a.indices_offset as int,
                a.fill.value@,
            ),
            ArrayData::Constant(a) => a.elements(),
        }
    }

    /// The logical type of the elements.
    pub open spec fn dtype_spec(self) -> DTypeView
        decreases self, 0int,
    {
        match self {
            ArrayData::Null(_) => DTypeView::Null,
            ArrayData::Bool(a) => a.dtype_spec(),
            ArrayData::Primitive(a) => a.dtype_spec(),
            ArrayData::VarBin(a) => a.dtype@,
            ArrayData::VarBinView(a) => a.dtype@,
            ArrayData::Struct(a) => a.dtype@,
            ArrayData::List(a) => a.dtype@,
            ArrayData::Extension(a) => a.dtype@,
            ArrayData::Chunked(a) => a.dtype@,
            ArrayData::Sparse(a) => a.values.dtype_spec(),
            ArrayData::Constant(a) => a.scalar.dtype@,
        }
    }

    /// The invariants of the model: child lengths agree with their parent, offsets never
    /// decrease, a validity array has the parent's length, and every node's dtype is the one
    /// its encoding derives from its children.
    pub open spec fn wf(self) -> bool
        decreases self,
    {
        match self {
            ArrayData::Null(_) => true,
            ArrayData::Bool(a) => a.wf(),
            ArrayData::Primitive(a) => a.wf(),
            ArrayData::VarBin(a) => a.wf(),
            ArrayData::VarBinView(a) => a.wf(),
            ArrayData::Struct(a) => {
                &&& a.wf_shallow()
                &&& forall|f: int| 0 <= f < a.fields@.len() ==> (#[trigger] a.fields@[f]).wf()
            },
            ArrayData::List(a) => a.wf_shallow() && a.elements.wf(),
            ArrayData::Extension(a) => a.wf_shallow() && a.storage.wf(),
            ArrayData::Chunked(a) => {
                &&& a.wf_shallow()
                &&& forall|k: int| 0 <= k < a.chunks@.len() ==> (#[trigger] a.chunks@[k]).wf()
            },
            ArrayData::Sparse(a) => a.wf_shallow() && a.values.wf(),
            ArrayData::Constant(_) => true,
        }
    }

    pub open spec fn spec_encoding(self) -> EncodingId {
        match self {
            ArrayData::Null(_) => EncodingId::Null,
            ArrayData::Bool(_) => EncodingId::Bool,
            ArrayData::Primitive(_) => EncodingId::Primitive,
            ArrayData::VarBin(_) => EncodingId::VarBin,
            ArrayData::VarBinView(_) => EncodingId::VarBinView,
            ArrayData::Struct(_) => EncodingId::Struct,
            ArrayData::List(_) => EncodingId::List,
            ArrayData::Extension(_) => EncodingId::Extension,
            ArrayData::Chunked(_) => EncodingId::Chunked,
            ArrayData::Sparse(_) => EncodingId::Sparse,
            ArrayData::Constant(_) => EncodingId::Constant,
        }
    }
}

/// Chunks with the same elements, one by one, have the same elements end to end.
pub proof fn lemma_concat_congruence(a: Seq<ArrayData>, b: Seq<ArrayData>, n: int)
    requires
        a.len() == b.len(),
        forall|j: int| 0 <= j < n && j < a.len() ==> a[j].elements() == b[j].elements(),
    ensures
        concat_elements(a, n) == concat_elements(b, n),
    decreases n,
{
    if n > 0 && n <= a.len() {
        lemma_concat_congruence(a, b, n - 1);
    }
}

/// The length of a concatenation grows with the number of chunks.
pub proof fn lemma_concat_len_monotone(chunks: Seq<ArrayData>, i: int, j: int)
    requires
        0 <= i <= j <= chunks.len(),
    ensures
        concat_elements(chunks, i).len() <= concat_elements(chunks, j).len(),
    decreases j - i,
{
    if i < j {
        lemma_concat_len_monotone(chunks, i, j - 1);
    }
}

/// Element `begin + i` of a concatenation is element `i` of the chunk that begins at `begin`.
pub proof fn lemma_concat_index(chunks: Seq<ArrayData>, n: int, k: int, i: int)
    requires
        0 <= k < n <= chunks.len(),
        0 <= i < chunks[k].elements().len(),
    ensures
        concat_elements(chunks, k).len() + i < concat_elements(chunks, n).len(),
        concat_elements(chunks, n)[concat_elements(chunks, k).len() + i] == chunks[k].elements()[i],
    decreases n,
{
    if k == n - 1 {
    } else {
        lemma_concat_index(chunks, n - 1, k, i);
    }
}

/// Concatenation does not look past the chunks it is asked for.
pub proof fn lemma_concat_prefix(a: Seq<ArrayData>, b: Seq<ArrayData>, n: int)
    requires
        0 <= n <= a.len(),
        n <= b.len(),
        forall|j: int| 0 <= j < n ==> a[j] == b[j],
    ensures
        concat_elements(a, n) == concat_elements(b, n),
    decreases n,
{
    if n > 0 {
        lemma_concat_prefix(a, b, n - 1);
    }
}

impl ArrayData {
    pub fn encoding(&self) -> (r: EncodingId)
        ensures r == self.spec_encoding(),
    {
        match self {
            ArrayData::Null(_) => EncodingId::Null,
            ArrayData::Bool(_) => EncodingId::Bool,
            ArrayData::Primitive(_) => EncodingId::Primitive,
            ArrayData::VarBin(_) => EncodingId::VarBin,
            ArrayData::VarBinView(_) => EncodingId::VarBinView,
            ArrayData::Struct(_) => EncodingId::Struct,
            ArrayData::List(_) => EncodingId::List,
            ArrayData::Extension(_) => EncodingId::Extension,
            ArrayData::Chunked(_) => EncodingId::Chunked,
            ArrayData::Sparse(_) => EncodingId::Sparse,
            ArrayData::Constant(_) => EncodingId::Constant,
        }
    }

    /// Whether the array is of the given encoding.
    pub fn is_encoding(&self, id: EncodingId) -> (r: bool)
        ensures r == (self.spec_encoding() == id),
    {
        self.encoding() == id
    }

    /// Whether the array is in the canonical encoding of its dtype.
    pub fn is_canonical(&self) -> (r: bool)
        ensures r == self.spec_encoding().spec_is_canonical(),
    {
        match self {
            ArrayData::VarBin(_) | ArrayData::Sparse(_) | ArrayData::Constant(_)
            | ArrayData::Chunked(_) => false,
            _ => true,
        }
    }

    /// The number of logical elements.
    pub fn len(&self) -> (r: usize)
        requires self.wf(),
        ensures r == self.elements().len(),
        decreases self,
    {
        match self {
            ArrayData::Null(a) => a.len,
            ArrayData::Bool(a) => a.values.len(),
            ArrayData::Primitive(a) => a.values.len(),
            ArrayData::VarBin(a) => a.offsets.len() - 1,
            ArrayData::VarBinView(a) => a.values.len(),
            ArrayData::Struct(a) => a.len,
            ArrayData::List(a) => a.offsets.len() - 1,
            ArrayData::Extension(a) => a.storage.len(),
            ArrayData::Chunked(a) => {
                let n = a.chunks.len();
                assert(a.chunk_ends@[n as int] == concat_elements(a.chunks@, n as int).len());
                a.chunk_ends[n] as usize
            },
            ArrayData::Sparse(a) => a.len,
            ArrayData::Constant(a) => a.len,
        }
    }

    pub fn is_empty(&self) -> (r: bool)
        requires self.wf(),
        ensures r == (self.elements().len() == 0),
    {
        self.len() == 0
    }

    /// The logical type of the elements.
    pub fn dtype(&self) -> (r: DType)
        ensures r@ == self.dtype_spec(),
        decreases self,
    {
        match self {
            ArrayData::Null(_) => DType::Null,
            ArrayData::Bool(a) => DType::Bool(a.validity.nullability()),
            ArrayData::Primitive(a) => DType::Primitive(a.ptype, a.validity.nullability()),
            ArrayData::VarBin(a) => a.dtype.clone(),
            ArrayData::VarBinView(a) => a.dtype.clone(),
            ArrayData::Struct(a) => a.dtype.clone(),
            ArrayData::List(a) => a.dtype.clone(),
            ArrayData::Extension(a) => a.dtype.clone(),
            ArrayData::Chunked(a) => a.dtype.clone(),
            ArrayData::Sparse(a) => a.values.dtype(),
            ArrayData::Constant(a) => a.scalar.dtype.clone(),
        }
    }

    /// A deep copy: the same encoding tree over fresh buffers.
    #[verifier::loop_isolation(false)]
    #[verifier::rlimit(40)]
    pub fn clone(&self) -> (r: ArrayData)
        ensures
            r@ == self@,
            r.spec_encoding() == self.spec_encoding(),
            self.wf() ==> r.wf(),
        decreases self,
    {
        match self {
            ArrayData::Null(a) => {
                let r = NullArray { len: a.len };
                assert(r.elements() =~= a.elements());
                ArrayData::Null(r)
            },
            ArrayData::Bool(a) => {
                let r = BoolArray { values: a.values.clone(), validity: a.validity.clone() };
                assert(r.elements() =~= a.elements());
                ArrayData::Bool(r)
            },
            ArrayData::Primitive(a) => {
                let r = PrimitiveArray {
                    ptype: a.ptype,
                    values: a.values.clone(),
                    validity: a.validity.clone(),
                };
                assert(r.elements() =~= a.elements());
                ArrayData::Primitive(r)
            },
            ArrayData::VarBin(a) => {
                let r = VarBinArray {
                    dtype: a.dtype.clone(),
                    offsets_ptype: a.offsets_ptype,
                    offsets: a.offsets.clone(),
                    bytes: a.bytes.clone(),
                    validity: a.validity.clone(),
                };
                assert(r.elements() =~= a.elements());
                ArrayData::VarBin(r)
            },
            ArrayData::VarBinView(a) => {
                let mut values: Vec<Vec<u8>> = Vec::new();
                let mut i: usize = 0;
                while i < a.values.len()
                    invariant
                        i <= a.values@.len(),
                        values@.len() == i,
                        forall|j: int| 0 <= j < i ==> values@[j]@ == a.values@[j]@,
                    decreases a.values@.len() - i,
                {
                    values.push(a.values[i].clone());
                    i += 1;
                }
                let r = VarBinViewArray {
                    dtype: a.dtype.clone(),
                    values,
                    validity: a.validity.clone(),
                };
                assert(r.elements() =~= a.elements());
                ArrayData::VarBinView(r)
            },
            ArrayData::Struct(a) => {
                let mut fields: Vec<ArrayData> = Vec::new();
                let mut f: usize = 0;
                while f < a.fields.len()
                    invariant
                        f <= a.fields@.len(),
                        fields@.len() == f,
                        forall|j: int| 0 <= j < f ==> (#[trigger] fields@[j])@ == a.fields@[j]@,
                        forall|j: int| 0 <= j < f ==> (a.fields@[j].wf() ==> (#[trigger] fields@[j]).wf()),
                    decreases a.fields@.len() - f,
                {
                    proof {
                        vstd::std_specs::vec::axiom_vec_index_decreases(a.fields, f as int);
                        assert(decreases_to!(*self => self->Struct_0));
                        assert(decreases_to!(self->Struct_0 => (self->Struct_0).fields));
                    }
                    let c = a.fields[f].clone();
                    fields.push(c);
                    f += 1;
                }
                let r = StructArray {
                    dtype: a.dtype.clone(),
                    fields,
                    len: a.len,
                    validity: a.validity.clone(),
                };
                proof {
                    assert forall|i: int| 0 <= i < a.len implies struct_row(r.fields@, i) == struct_row(a.fields@, i) by {
                        assert(struct_row(r.fields@, i) =~= struct_row(a.fields@, i));
                    }
                    assert(r.elements() =~= a.elements());
                    assert(dtypes_of(r.fields@) =~= dtypes_of(a.fields@));
                    if self.wf() {
                        assert(r.wf_shallow());
                    }
                }
                assert(ArrayData::Struct(r).elements() =~= r.elements());
                assert(self.elements() =~= a.elements());
                ArrayData::Struct(r)
            },
            ArrayData::List(a) => {
                let elements = (*a.elements).clone();
                let r = ListArray {
                    dtype: a.dtype.clone(),
                    elements: Box::new(elements),
                    offsets_ptype: a.offsets_ptype,
                    offsets: a.offsets.clone(),
                    validity: a.validity.clone(),
                };
                assert(r.elements() =~= a.elements());
                ArrayData::List(r)
            },
            ArrayData::Extension(a) => {
                let storage = (*a.storage).clone();
                let r = ExtensionArray { dtype: a.dtype.clone(), storage: Box::new(storage) };
                ArrayData::Extension(r)
            },
            ArrayData::Chunked(a) => {
                let mut chunks: Vec<ArrayData> = Vec::new();
                let mut k: usize = 0;
                while k < a.chunks.len()
                    invariant
                        k <= a.chunks@.len(),
                        chunks@.len() == k,
                        forall|j: int| 0 <= j < k ==> (#[trigger] chunks@[j])@ == a.chunks@[j]@,
                        forall|j: int| 0 <= j < k ==> (a.chunks@[j].wf() ==> (#[trigger] chunks@[j]).wf()),
                    decreases a.chunks@.len() - k,
                {
                    proof {
                        vstd::std_specs::vec::axiom_vec_index_decreases(a.chunks, k as int);
                        assert(decreases_to!(*self => self->Chunked_0));
                        assert(decreases_to!(self->Chunked_0 => (self->Chunked_0).chunks));
                    }
                    let c = a.chunks[k].clone();
                    chunks.push(c);
                    k += 1;
                }
                let r = ChunkedArray {
                    dtype: a.dtype.clone(),
                    chunks,
                    chunk_ends: a.chunk_ends.clone(),
                };
                proof {
                    assert forall|n: int| 0 <= n <= a.chunks@.len() implies concat_elements(r.chunks@, n) == concat_elements(a.chunks@, n) by {
                        lemma_concat_congruence(r.chunks@, a.chunks@, n);
                    }
                }
                proof {
                    lemma_concat_congruence(r.chunks@, a.chunks@, a.chunks@.len() as int);
                    assert(ArrayData::Chunked(r).elements() == self.elements());
                }
                ArrayData::Chunked(r)
            },
            ArrayData::Sparse(a) => {
                let values = (*a.values).clone();
                let r = SparseArray {
                    indices: a.indices.clone(),
                    values: Box::new(values),
                    len: a.len,
                    indices_offset: a.indices_offset,
                    fill: a.fill.clone(),
                };
                ArrayData::Sparse(r)
            },
            ArrayData::Constant(a) => {
                let r = ConstantArray { scalar: a.scalar.clone(), len: a.len };
                assert(r.elements() =~= a.elements());
                ArrayData::Constant(r)
            },
        }
    }
}

impl View for ArrayData {
    type V = ArrayView;

    open spec fn view(&self) -> ArrayView {
        ArrayView { dtype: self.dtype_spec(), elements: self.elements() }
    }
}

} // verus!
