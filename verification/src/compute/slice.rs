//! Slicing: the elements of a range, in a new array of the same dtype.

use vstd::prelude::*;

use crate::array::{
    concat_elements, dtypes_of, lemma_concat_index, lemma_concat_len_monotone,
    lemma_concat_prefix, position_of, sparse_elements, strictly_increasing, struct_row, ArrayData,
    BoolArray, ChunkedArray, ConstantArray, ExtensionArray, NullArray, PrimitiveArray,
    SparseArray, StructArray, VarBinArray, VarBinViewArray,
};
use crate::compute::laws::sliced;
use crate::compute::scalar_at::{copy_range, lemma_position_of};
use crate::error::VortexError;
use crate::scalar::Datum;

verus! {

/// One more chunk adds its elements at the end.
pub proof fn lemma_concat_push(chunks: Seq<ArrayData>, c: ArrayData)
    ensures
        concat_elements(chunks.push(c), chunks.len() as int + 1) == concat_elements(
            chunks,
            chunks.len() as int,
        ) + c.elements(),
{
    lemma_concat_prefix(chunks, chunks.push(c), chunks.len() as int);
}

/// A chunk's elements are the range of the concatenation between its ends.
pub proof fn lemma_concat_chunk_range(chunks: Seq<ArrayData>, n: int, k: int)
    requires
        0 <= k < n <= chunks.len(),
    ensures
        concat_elements(chunks, k + 1).len() <= concat_elements(chunks, n).len(),
        concat_elements(chunks, n).subrange(
            concat_elements(chunks, k).len() as int,
            concat_elements(chunks, k + 1).len() as int,
        ) == chunks[k].elements(),
{
    lemma_concat_len_monotone(chunks, k + 1, n);
    let whole = concat_elements(chunks, n);
    let lo = concat_elements(chunks, k).len() as int;
    let hi = concat_elements(chunks, k + 1).len() as int;
    assert forall|i: int| 0 <= i < hi - lo implies whole.subrange(lo, hi)[i] == chunks[k].elements()[i] by {
        lemma_concat_index(chunks, n, k, i);
    }
    assert(whole.subrange(lo, hi) =~= chunks[k].elements());
}

/// Where a target sits among the indices `i0..i1`, which are those that lie in `lo..hi`.
pub proof fn lemma_position_slice(
    indices: Seq<usize>,
    lo: int,
    hi: int,
    i0: int,
    i1: int,
    t: int,
)
    requires
        strictly_increasing(indices),
        0 <= i0 <= i1 <= indices.len(),
        forall|j: int| 0 <= j < i0 ==> (#[trigger] indices[j]) < lo,
        forall|j: int| i0 <= j < indices.len() ==> (#[trigger] indices[j]) >= lo,
        forall|j: int| 0 <= j < i1 ==> (#[trigger] indices[j]) < hi,
        forall|j: int| i1 <= j < indices.len() ==> (#[trigger] indices[j]) >= hi,
        lo <= t < hi,
    ensures
        strictly_increasing(indices.subrange(i0, i1)),
        position_of(indices, t) >= 0 ==> i0 <= position_of(indices, t) < i1 && position_of(
            indices.subrange(i0, i1),
            t,
        ) == position_of(indices, t) - i0,
        position_of(indices, t) < 0 ==> position_of(indices.subrange(i0, i1), t) == -1,
{
    let ni = indices.subrange(i0, i1);
    assert forall|j: int, k: int| 0 <= j < k < ni.len() implies ni[j] < ni[k] by {
        assert(indices[i0 + j] < indices[i0 + k]);
    }
    if exists|k: int| 0 <= k < indices.len() && indices[k] == t {
        let k = choose|k: int| 0 <= k < indices.len() && indices[k] == t;
        lemma_position_of(indices, k);
        assert(i0 <= k < i1);
        assert(ni[k - i0] == t);
        lemma_position_of(ni, k - i0);
    } else {
        if exists|k: int| 0 <= k < ni.len() && ni[k] == t {
            let k = choose|k: int| 0 <= k < ni.len() && ni[k] == t;
            assert(indices[i0 + k] == t);
        }
    }
}

/// Slicing a sparse array slices its patches and rebases their positions.
#[verifier::rlimit(40)]
pub proof fn lemma_sparse_slice(
    indices: Seq<usize>,
    values: Seq<Datum>,
    len: int,
    offset: int,
    fill: Datum,
    start: int,
    stop: int,
    i0: int,
    i1: int,
)
    requires
        strictly_increasing(indices),
        indices.len() == values.len(),
        0 <= start <= stop <= len,
        0 <= i0 <= indices.len(),
        0 <= i1 <= indices.len(),
        forall|j: int| 0 <= j < i0 ==> (#[trigger] indices[j]) < start + offset,
        forall|j: int| i0 <= j < indices.len() ==> (#[trigger] indices[j]) >= start + offset,
        forall|j: int| 0 <= j < i1 ==> (#[trigger] indices[j]) < stop + offset,
        forall|j: int| i1 <= j < indices.len() ==> (#[trigger] indices[j]) >= stop + offset,
    ensures
        i0 <= i1,
        sparse_elements(
            indices.subrange(i0, i1),
            values.subrange(i0, i1),
            stop - start,
            offset + start,
            fill,
        ) == sparse_elements(indices, values, len, offset, fill).subrange(start, stop),
{
    if i1 < i0 {
        assert(indices[i1] >= stop + offset);
        assert(indices[i1] < start + offset);
    }
    let ni = indices.subrange(i0, i1);
    let nv = values.subrange(i0, i1);
    let a = sparse_elements(ni, nv, stop - start, offset + start, fill);
    let b = sparse_elements(indices, values, len, offset, fill).subrange(start, stop);
    assert forall|j: int, k: int| 0 <= j < k < ni.len() implies ni[j] < ni[k] by {
        assert(indices[i0 + j] < indices[i0 + k]);
    }
    assert forall|i: int| 0 <= i < stop - start implies a[i] == b[i] by {
        let t = i + start + offset;
        if exists|k: int| 0 <= k < indices.len() && indices[k] == t {
            let k = choose|k: int| 0 <= k < indices.len() && indices[k] == t;
            lemma_position_of(indices, k);
            assert(i0 <= k < i1);
            assert(ni[k - i0] == t);
            lemma_position_of(ni, k - i0);
        } else {
            if exists|k: int| 0 <= k < ni.len() && ni[k] == t {
                let k = choose|k: int| 0 <= k < ni.len() && ni[k] == t;
                assert(indices[i0 + k] == t);
            }
        }
    }
    assert(a =~= b);
}

/// The slice of an array whose range is known to lie within it.
pub fn slice_unchecked(array: &ArrayData, start: usize, stop: usize) -> (r: ArrayData)
    requires
        array.wf(),
        start <= stop <= array.elements().len(),
    ensures
        r.wf(),
        r.dtype_spec() == array.dtype_spec(),
        r.elements() == array.elements().subrange(start as int, stop as int),
    decreases array,
{
    match array {
        ArrayData::Null(_) => {
            let r = NullArray { len: stop - start };
            assert(r.elements() =~= array.elements().subrange(start as int, stop as int));
            ArrayData::Null(r)
        },
        ArrayData::Bool(a) => {
            let r = BoolArray {
                values: copy_range(&a.values, start, stop),
                validity: a.validity.slice(start, stop),
            };
            assert(r.elements() =~= array.elements().subrange(start as int, stop as int));
            ArrayData::Bool(r)
        },
        ArrayData::Primitive(a) => {
            let r = PrimitiveArray {
                ptype: a.ptype,
                values: copy_range(&a.values, start, stop),
                validity: a.validity.slice(start, stop),
            };
            assert(r.elements() =~= array.elements().subrange(start as int, stop as int));
            assert forall|i: int| 0 <= i < r.values@.len() implies r.ptype.holds(#[trigger] r.values@[i] as int) by {
                assert(r.values@[i] == a.values@[start + i]);
            }
            ArrayData::Primitive(r)
        },
        ArrayData::VarBin(a) => ArrayData::VarBin(a.slice_unchecked(start, stop)),
        ArrayData::VarBinView(a) => {
            let mut values: Vec<Vec<u8>> = Vec::new();
            let mut i: usize = start;
            while i < stop
                invariant
                    start <= i <= stop <= a.values@.len(),
                    values@.len() == i - start,
                    forall|j: int| 0 <= j < i - start ==> (#[trigger] values@[j])@ == a.values@[start + j]@,
                decreases stop - i,
            {
                values.push(a.values[i].clone());
                i += 1;
            }
            let r = VarBinViewArray {
                dtype: a.dtype.clone(),
                values,
                validity: a.validity.slice(start, stop),
            };
            assert(r.elements() =~= array.elements().subrange(start as int, stop as int));
            ArrayData::VarBinView(r)
        },
        ArrayData::Struct(a) => {
            let r = a.slice_unchecked(start, stop);
            proof {
                a.lemma_elements();
                r.lemma_elements();
            }
            ArrayData::Struct(r)
        },
        ArrayData::List(a) => {
            let n = a.offsets.len();
            let r = crate::array::ListArray {
                dtype: a.dtype.clone(),
                elements: Box::new((*a.elements).clone()),
                offsets_ptype: a.offsets_ptype,
                offsets: copy_range(&a.offsets, start, stop + 1),
                validity: a.validity.slice(start, stop),
            };
            proof {
                assert forall|i: int, j: int| 0 <= i <= j < r.offsets@.len() implies r.offsets@[i] <= r.offsets@[j] by {
                    assert(r.offsets@[i] == a.offsets@[start + i]);
                    assert(r.offsets@[j] == a.offsets@[start + j]);
                }
                assert(r.offsets@[r.offsets@.len() - 1] == a.offsets@[stop as int]);
                assert(a.offsets@[stop as int] <= a.offsets@[n - 1]);
                assert forall|i: int| 0 <= i < stop - start implies r.elements()[i] == a.elements()[start + i] by {
                    assert(r.offsets@[i] == a.offsets@[start + i]);
                    assert(r.offsets@[i + 1] == a.offsets@[start + i + 1]);
                }
                assert(r.elements() =~= a.elements().subrange(start as int, stop as int));
            }
            ArrayData::List(r)
        },
        ArrayData::Extension(a) => {
            let storage = slice_unchecked(&a.storage, start, stop);
            ArrayData::Extension(ExtensionArray { dtype: a.dtype.clone(), storage: Box::new(storage) })
        },
        ArrayData::Chunked(a) => ArrayData::Chunked(a.slice_unchecked(start, stop)),
        ArrayData::Sparse(a) => ArrayData::Sparse(a.slice_unchecked(start, stop)),
        ArrayData::Constant(a) => {
            let r = ConstantArray { scalar: a.scalar.clone(), len: stop - start };
            assert(r.elements() =~= array.elements().subrange(start as int, stop as int));
            ArrayData::Constant(r)
        },
    }
}

impl StructArray {
    /// The elements of a struct array are those of the struct encoding.
    pub proof fn lemma_elements(self)
        ensures ArrayData::Struct(self).elements() == self.elements(),
    {
        assert(ArrayData::Struct(self).elements() =~= self.elements());
    }

    /// The slice of a range known to lie within the array: every field is sliced.
    pub fn slice_unchecked(&self, start: usize, stop: usize) -> (r: StructArray)
        requires
            self.wf(),
            start <= stop <= self.len,
        ensures
            r.wf(),
            r.dtype@ == self.dtype@,
            r.elements() == self.elements().subrange(start as int, stop as int),
        decreases self,
    {
        let mut fields: Vec<ArrayData> = Vec::new();
        let mut f: usize = 0;
        while f < self.fields.len()
            invariant
                self.wf(),
                start <= stop <= self.len,
                f <= self.fields@.len(),
                fields@.len() == f,
                forall|j: int| 0 <= j < f ==> (#[trigger] fields@[j]).wf(),
                forall|j: int| 0 <= j < f ==> (#[trigger] fields@[j]).dtype_spec() == self.fields@[j].dtype_spec(),
                forall|j: int| 0 <= j < f ==> (#[trigger] fields@[j]).elements() == self.fields@[j].elements().subrange(start as int, stop as int),
            decreases self.fields@.len() - f,
        {
            proof {
                vstd::std_specs::vec::axiom_vec_index_decreases(self.fields, f as int);
                assert(decreases_to!(*self => self.fields));
                assert(self.fields@[f as int].wf());
                assert(self.fields@[f as int].elements().len() == self.len);
            }
            let c = slice_unchecked(&self.fields[f], start, stop);
            fields.push(c);
            f += 1;
        }
        let r = StructArray {
            dtype: self.dtype.clone(),
            fields,
            len: stop - start,
            validity: self.validity.slice(start, stop),
        };
        proof {
            assert forall|i: int| 0 <= i < stop - start implies #[trigger] struct_row(r.fields@, i) == struct_row(self.fields@, start + i) by {
                assert forall|g: int| 0 <= g < r.fields@.len() implies struct_row(r.fields@, i)[g] == struct_row(self.fields@, start + i)[g] by {
                    assert(r.fields@[g].elements() == self.fields@[g].elements().subrange(start as int, stop as int));
                    assert(self.fields@[g].elements().len() == self.len);
                }
                assert(struct_row(r.fields@, i) =~= struct_row(self.fields@, start + i));
            }
            assert(r.elements() =~= self.elements().subrange(start as int, stop as int));
            assert(dtypes_of(r.fields@) =~= dtypes_of(self.fields@));
            assert forall|g: int| 0 <= g < r.fields@.len() implies (#[trigger] r.fields@[g]).elements().len() == r.len by {
                assert(self.fields@[g].elements().len() == self.len);
            }
        }
        r
    }
}

impl ChunkedArray {
    /// The slice of a range known to lie within the array: the chunks at the two ends are
    /// trimmed, those between are kept, those outside are dropped.
    #[verifier::rlimit(40)]
    pub fn slice_unchecked(&self, start: usize, stop: usize) -> (r: ChunkedArray)
        requires
            self.wf(),
            start <= stop <= self.elements().len(),
        ensures
            r.wf(),
            r.dtype@ == self.dtype@,
            r.elements() == self.elements().subrange(start as int, stop as int),
        decreases self,
    {
        let n = self.chunks.len();
        let ghost whole = concat_elements(self.chunks@, n as int);
        let mut chunks: Vec<ArrayData> = Vec::new();
        let mut k: usize = 0;
        while k < n
            invariant
                self.wf(),
                n == self.chunks@.len(),
                whole == concat_elements(self.chunks@, n as int),
                start <= stop <= whole.len(),
                k <= n,
                forall|j: int| 0 <= j < chunks@.len() ==> (#[trigger] chunks@[j]).wf(),
                forall|j: int| 0 <= j < chunks@.len() ==> (#[trigger] chunks@[j]).dtype_spec() == self.dtype@,
                concat_elements(chunks@, chunks@.len() as int) == whole.subrange(
                    if start <= self.chunk_ends@[k as int] { start as int } else { self.chunk_ends@[k as int] as int },
                    if stop <= self.chunk_ends@[k as int] { stop as int } else { self.chunk_ends@[k as int] as int },
                ),
            decreases n - k,
        {
            let begin = self.chunk_ends[k] as usize;
            let end = self.chunk_ends[k + 1] as usize;
            proof {
                lemma_concat_chunk_range(self.chunks@, n as int, k as int);
                lemma_concat_len_monotone(self.chunks@, k as int, k + 1);
                assert(self.chunk_ends@[k as int] == concat_elements(self.chunks@, k as int).len());
                assert(self.chunk_ends@[k + 1] == concat_elements(self.chunks@, k + 1).len());
                assert(self.chunk_ends@[n as int] == concat_elements(self.chunks@, n as int).len());
                assert(self.chunks@[k as int].wf());
                vstd::std_specs::vec::axiom_vec_index_decreases(self.chunks, k as int);
                assert(decreases_to!(*self => self.chunks));
            }
            let lo = if start > begin { start } else { begin };
            let hi = if stop < end { stop } else { end };
            if lo < hi {
                let piece = slice_unchecked(&self.chunks[k], lo - begin, hi - begin);
                proof {
                    lemma_concat_push(chunks@, piece);
                    assert(piece.elements() =~= whole.subrange(lo as int, hi as int));
                    let prev_lo = if start <= begin { start as int } else { begin as int };
                    let prev_hi = if stop <= begin { stop as int } else { begin as int };
                    assert(whole.subrange(prev_lo, prev_hi) + whole.subrange(lo as int, hi as int) =~= whole.subrange(
                        if start <= end { start as int } else { end as int },
                        if stop <= end { stop as int } else { end as int },
                    ));
                }
                chunks.push(piece);
            } else {
                proof {
                    let prev_lo = if start <= begin { start as int } else { begin as int };
                    let prev_hi = if stop <= begin { stop as int } else { begin as int };
                    assert(whole.subrange(prev_lo, prev_hi) =~= whole.subrange(
                        if start <= end { start as int } else { end as int },
                        if stop <= end { stop as int } else { end as int },
                    ));
                }
            }
            k += 1;
        }
        proof {
            assert(self.chunk_ends@[n as int] == whole.len());
        }
        ChunkedArray::from_chunks(chunks, self.dtype.clone())
    }
}

impl VarBinArray {
    /// The slice of a range known to lie within the array: the offsets are sliced, the bytes
    /// are kept whole.
    pub fn slice_unchecked(&self, start: usize, stop: usize) -> (r: VarBinArray)
        requires
            self.wf(),
            start <= stop <= self.elements().len(),
        ensures
            r.wf(),
            r.dtype@ == self.dtype@,
            r.bytes@ == self.bytes@,
            r.offsets@ == self.offsets@.subrange(start as int, stop + 1),
            r.elements() == self.elements().subrange(start as int, stop as int),
    {
        let n = self.offsets.len();
        let r = VarBinArray {
            dtype: self.dtype.clone(),
            offsets_ptype: self.offsets_ptype,
            offsets: copy_range(&self.offsets, start, stop + 1),
            bytes: self.bytes.clone(),
            validity: self.validity.slice(start, stop),
        };
        proof {
            assert forall|i: int| 0 <= i < r.offsets@.len() implies r.offsets_ptype.holds(#[trigger] r.offsets@[i] as int) by {
                assert(r.offsets@[i] == self.offsets@[start + i]);
            }
            assert forall|i: int, j: int| 0 <= i <= j < r.offsets@.len() implies r.offsets@[i] <= r.offsets@[j] by {
                assert(r.offsets@[i] == self.offsets@[start + i]);
                assert(r.offsets@[j] == self.offsets@[start + j]);
            }
            assert(r.offsets@[r.offsets@.len() - 1] == self.offsets@[stop as int]);
            assert(self.offsets@[stop as int] <= self.offsets@[n - 1]);
            assert forall|i: int| 0 <= i < stop - start implies r.bytes_of(i) == self.bytes_of(start + i) by {
                assert(r.offsets@[i] == self.offsets@[start + i]);
                assert(r.offsets@[i + 1] == self.offsets@[start + i + 1]);
            }
            assert(r.elements() =~= self.elements().subrange(start as int, stop as int));
        }
        r
    }

    /// The elements `start..stop` as a new array over the same bytes. A range that does not
    /// lie within the array is refused with `InvalidArgument`.
    pub fn slice(&self, start: usize, stop: usize) -> (r: Result<ArrayData, VortexError>)
        requires
            self.wf(),
        ensures
            start <= stop <= self.elements().len() ==> r is Ok && r->Ok_0.wf()
                && r->Ok_0 is VarBin
                && r->Ok_0.dtype_spec() == self.dtype@
                && r->Ok_0.elements() == self.elements().subrange(start as int, stop as int)
                && r->Ok_0->VarBin_0.bytes@ == self.bytes@,
            !(start <= stop <= self.elements().len()) ==> r == Err::<ArrayData, VortexError>(
                VortexError::InvalidArgument,
            ),
    {
        if start > stop || stop > self.offsets.len() - 1 {
            return Err(VortexError::InvalidArgument);
        }
        Ok(ArrayData::VarBin(self.slice_unchecked(start, stop)))
    }
}

/// How many of the stored positions lie below a bound.
pub open spec fn count_below(indices: Seq<usize>, bound: int) -> int
    decreases indices.len(),
{
    if indices.len() == 0 {
        0
    } else {
        count_below(indices.drop_last(), bound) + if indices.last() < bound {
            1int
        } else {
            0int
        }
    }
}

/// Where the first `i` positions lie below a bound and the others do not, `i` positions lie
/// below it.
pub proof fn lemma_count_below(indices: Seq<usize>, bound: int, i: int)
    requires
        0 <= i <= indices.len(),
        forall|j: int| 0 <= j < i ==> (#[trigger] indices[j]) < bound,
        forall|j: int| i <= j < indices.len() ==> (#[trigger] indices[j]) >= bound,
    ensures
        count_below(indices, bound) == i,
    decreases indices.len(),
{
    if indices.len() > 0 {
        let rest = indices.drop_last();
        if i == indices.len() {
            lemma_count_below(rest, bound, i - 1);
        } else {
            lemma_count_below(rest, bound, i);
        }
    }
}

impl SparseArray {
    /// The slice of a range known to lie within the array: the patches whose positions lie
    /// in the range, under the same fill.
    pub fn slice_unchecked(&self, start: usize, stop: usize) -> (r: SparseArray)
        requires
            self.wf(),
            start <= stop <= self.len,
        ensures
            r.wf(),
            r.values.dtype_spec() == self.values.dtype_spec(),
            r.len == stop - start,
            r.indices_offset == self.indices_offset + start,
            r.fill@ == self.fill@,
            r.indices@ == self.indices@.subrange(
                count_below(self.indices@, self.indices_offset + start),
                count_below(self.indices@, self.indices_offset + stop),
            ),
            r.values.elements() == self.values.elements().subrange(
                count_below(self.indices@, self.indices_offset + start),
                count_below(self.indices@, self.indices_offset + stop),
            ),
            r.elements() == self.elements().subrange(start as int, stop as int),
        decreases self,
    {
        let index_start_index = self.search_index(start).to_index();
        let index_end_index = self.search_index(stop).to_index();
        proof {
            lemma_count_below(self.indices@, self.indices_offset + start, index_start_index as int);
            lemma_count_below(self.indices@, self.indices_offset + stop, index_end_index as int);
            lemma_sparse_slice(
                self.indices@,
                self.values.elements(),
                self.len as int,
                self.indices_offset as int,
                self.fill.value@,
                start as int,
                stop as int,
                index_start_index as int,
                index_end_index as int,
            );
        }
        let indices = copy_range(&self.indices, index_start_index, index_end_index);
        let values = slice_unchecked(&self.values, index_start_index, index_end_index);
        let r = SparseArray {
            indices,
            values: Box::new(values),
            len: stop - start,
            indices_offset: self.indices_offset + start,
            fill: self.fill.clone(),
        };
        proof {
            assert forall|j: int, k: int| 0 <= j < k < r.indices@.len() implies r.indices@[j] < r.indices@[k] by {
                assert(self.indices@[index_start_index + j] < self.indices@[index_start_index + k]);
            }
            assert forall|k: int| 0 <= k < r.indices@.len() implies r.indices_offset <= (#[trigger] r.indices@[k]) < r.indices_offset + r.len by {
                assert(r.indices@[k] == self.indices@[index_start_index + k]);
            }
        }
        r
    }

    /// The elements `start..stop`: the patches that fall within, their positions rebased by
    /// moving the offset. A range that does not lie within the array is refused with
    /// `InvalidArgument`.
    pub fn slice(&self, start: usize, stop: usize) -> (r: Result<ArrayData, VortexError>)
        requires
            self.wf(),
        ensures
            start <= stop <= self.len ==> r is Ok && r->Ok_0.wf() && r->Ok_0 is Sparse
                && r->Ok_0.dtype_spec() == self.values.dtype_spec()
                && r->Ok_0.elements() == self.elements().subrange(start as int, stop as int)
                && r->Ok_0->Sparse_0.indices_offset == self.indices_offset + start
                && r->Ok_0->Sparse_0.fill@ == self.fill@
                && r->Ok_0->Sparse_0.indices@ == self.indices@.subrange(
                count_below(self.indices@, self.indices_offset + start),
                count_below(self.indices@, self.indices_offset + stop),
            ) && r->Ok_0->Sparse_0.values.elements() == self.values.elements().subrange(
                count_below(self.indices@, self.indices_offset + start),
                count_below(self.indices@, self.indices_offset + stop),
            ),
            !(start <= stop <= self.len) ==> r == Err::<ArrayData, VortexError>(
                VortexError::InvalidArgument,
            ),
    {
        if start > stop || stop > self.len {
            return Err(VortexError::InvalidArgument);
        }
        Ok(ArrayData::Sparse(self.slice_unchecked(start, stop)))
    }
}

/// The elements `start..stop` as a new array of the same dtype. A range that does not lie
/// within the array is refused with `InvalidArgument`.
pub fn slice(array: &ArrayData, start: usize, stop: usize) -> (r: Result<ArrayData, VortexError>)
    requires
        array.wf(),
    ensures
        start <= stop <= array.elements().len() ==> r is Ok && r->Ok_0.wf() && r->Ok_0@ == sliced(
            array@,
            start as int,
            stop as int,
        ),
        !(start <= stop <= array.elements().len()) ==> r == Err::<ArrayData, VortexError>(
            VortexError::InvalidArgument,
        ),
{
    if start > stop || stop > array.len() {
        return Err(VortexError::InvalidArgument);
    }
    Ok(slice_unchecked(array, start, stop))
}

} // verus!
