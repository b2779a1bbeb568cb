//! Taking: the elements at given positions, in the order of the positions.

use vstd::prelude::*;

use crate::array::{
    concat_elements, dtypes_of, lemma_concat_index, position_of,
    strictly_increasing, struct_row, ArrayData, BoolArray, ChunkedArray, ConstantArray,
    ExtensionArray, NullArray, PrimitiveArray, SparseArray, StructArray, VarBinViewArray,
};
use crate::compute::laws::taken;
use crate::compute::mask::{indices_in_bounds, take_seq};
use crate::compute::scalar_at::lemma_position_of;
use crate::compute::search_sorted::SearchResult;
use crate::compute::slice::lemma_concat_push;
use crate::encodings::chunked::find_chunk_idx;
use crate::error::VortexError;
use crate::scalar::Datum;

verus! {

/// The items of `values` at `indices`.
pub fn take_values<T: Copy>(values: &Vec<T>, indices: &Vec<usize>) -> (r: Vec<T>)
    requires indices_in_bounds(indices@, values@.len() as int),
    ensures r@ == take_seq(values@, indices@),
{
    let mut out: Vec<T> = Vec::new();
    let mut k: usize = 0;
    while k < indices.len()
        invariant
            k <= indices@.len(),
            indices_in_bounds(indices@, values@.len() as int),
            out@.len() == k,
            forall|j: int| 0 <= j < k ==> out@[j] == values@[indices@[j] as int],
        decreases indices@.len() - k,
    {
        out.push(values[indices[k]]);
        k += 1;
    }
    assert(out@ =~= take_seq(values@, indices@));
    out
}

/// Appending an index greater than all others keeps the positions of the others.
pub proof fn lemma_position_push(s: Seq<usize>, x: usize, t: int)
    requires
        strictly_increasing(s),
        forall|k: int| 0 <= k < s.len() ==> (#[trigger] s[k]) < x,
    ensures
        strictly_increasing(s.push(x)),
        t == x ==> position_of(s.push(x), t) == s.len(),
        t != x ==> position_of(s.push(x), t) == position_of(s, t),
{
    let p = s.push(x);
    assert forall|i: int, j: int| 0 <= i < j < p.len() implies p[i] < p[j] by {
        if j < s.len() {
            assert(s[i] < s[j]);
        } else {
            assert(s[i] < x);
        }
    }
    if t == x {
        lemma_position_of(p, s.len() as int);
    } else {
        if exists|k: int| 0 <= k < s.len() && s[k] == t {
            let k = choose|k: int| 0 <= k < s.len() && s[k] == t;
            lemma_position_of(s, k);
            assert(p[k] == t);
            lemma_position_of(p, k);
        } else {
            if exists|k: int| 0 <= k < p.len() && p[k] == t {
                let k = choose|k: int| 0 <= k < p.len() && p[k] == t;
                assert(k < s.len());
                assert(s[k] == t);
            }
        }
    }
}

impl StructArray {
    /// The rows at positions known to lie within the array: every field is taken from.
    #[verifier::rlimit(40)]
    pub fn take_unchecked(&self, indices: &Vec<usize>) -> (r: StructArray)
        requires
            self.wf(),
            indices_in_bounds(indices@, self.len as int),
        ensures
            r.wf(),
            r.dtype@ == self.dtype@,
            r.elements() == take_seq(self.elements(), indices@),
        decreases self,
    {
        let mut fields: Vec<ArrayData> = Vec::new();
        let mut f: usize = 0;
        while f < self.fields.len()
            invariant
                self.wf(),
                indices_in_bounds(indices@, self.len as int),
                f <= self.fields@.len(),
                fields@.len() == f,
                forall|j: int| 0 <= j < f ==> (#[trigger] fields@[j]).wf(),
                forall|j: int| 0 <= j < f ==> (#[trigger] fields@[j]).dtype_spec() == self.fields@[j].dtype_spec(),
                forall|j: int| 0 <= j < f ==> (#[trigger] fields@[j]).elements() == take_seq(self.fields@[j].elements(), indices@),
            decreases self.fields@.len() - f,
        {
            proof {
                vstd::std_specs::vec::axiom_vec_index_decreases(self.fields, f as int);
                assert(decreases_to!(*self => self.fields));
                assert(self.fields@[f as int].wf());
                assert(self.fields@[f as int].elements().len() == self.len);
            }
            let c = take_unchecked(&self.fields[f], indices);
            fields.push(c);
            f += 1;
        }
        let r = StructArray {
            dtype: self.dtype.clone(),
            fields,
            len: indices.len(),
            validity: self.validity.take(indices),
        };
        proof {
            assert forall|i: int| 0 <= i < indices@.len() implies #[trigger] struct_row(r.fields@, i) == struct_row(self.fields@, indices@[i] as int) by {
                assert forall|g: int| 0 <= g < r.fields@.len() implies struct_row(r.fields@, i)[g] == struct_row(self.fields@, indices@[i] as int)[g] by {
                    assert(r.fields@[g].elements() == take_seq(self.fields@[g].elements(), indices@));
                }
                assert(struct_row(r.fields@, i) =~= struct_row(self.fields@, indices@[i] as int));
            }
            assert(r.elements() =~= take_seq(self.elements(), indices@));
            assert(dtypes_of(r.fields@) =~= dtypes_of(self.fields@));
        }
        r
    }
}

impl ChunkedArray {
    /// The elements at `indices`, gathered chunk by chunk: each run of consecutive indices
    /// that fall into one chunk becomes one array, taken from that chunk. So no array is
    /// empty, there are no more arrays than indices, and where the indices increase there
    /// are no more arrays than chunks.
    #[verifier::rlimit(60)]
    pub fn take_chunks(&self, indices: &Vec<usize>) -> (r: Vec<ArrayData>)
        requires
            self.wf(),
            indices_in_bounds(indices@, self.elements().len() as int),
        ensures
            forall|j: int| 0 <= j < r@.len() ==> (#[trigger] r@[j]).wf(),
            forall|j: int| 0 <= j < r@.len() ==> (#[trigger] r@[j]).dtype_spec() == self.dtype@,
            concat_elements(r@, r@.len() as int) == take_seq(self.elements(), indices@),
            forall|j: int| 0 <= j < r@.len() ==> (#[trigger] r@[j]).elements().len() > 0,
            r@.len() <= indices@.len(),
            crate::array::strictly_increasing(indices@) ==> r@.len() <= self.chunks@.len(),
        decreases self, 1int,
    {
        let ghost sorted = crate::array::strictly_increasing(indices@);
        let n = self.chunks.len();
        let ghost whole = concat_elements(self.chunks@, n as int);
        let mut result: Vec<ArrayData> = Vec::new();
        let mut current_chunk_id: usize = 0;
        let mut chunk_indices: Vec<usize> = Vec::new();
        let mut i: usize = 0;
        proof {
            self.lemma_ends_sorted();
            assert(self.chunk_ends@[n as int] == whole.len());
            assert(concat_elements(result@, 0) + take_seq(Seq::<crate::scalar::Datum>::empty(), chunk_indices@) =~= take_seq(whole, indices@.subrange(0, 0)));
        }
        while i < indices.len()
            invariant
                self.wf(),
                n == self.chunks@.len(),
                whole == concat_elements(self.chunks@, n as int),
                whole.len() == self.chunk_ends@[n as int],
                crate::encodings::chunked::ends_sorted(self.chunk_ends@),
                self.chunk_ends@[0] == 0,
                indices_in_bounds(indices@, whole.len() as int),
                i <= indices@.len(),
                forall|j: int| 0 <= j < result@.len() ==> (#[trigger] result@[j]).wf(),
                forall|j: int| 0 <= j < result@.len() ==> (#[trigger] result@[j]).dtype_spec() == self.dtype@,
                chunk_indices@.len() > 0 ==> current_chunk_id < n,
                chunk_indices@.len() > 0 ==> indices_in_bounds(chunk_indices@, self.chunks@[current_chunk_id as int].elements().len() as int),
                sorted == crate::array::strictly_increasing(indices@),
                forall|j: int| 0 <= j < result@.len() ==> (#[trigger] result@[j]).elements().len() > 0,
                result@.len() + (if chunk_indices@.len() > 0 { 1int } else { 0int }) <= i,
                i == 0 ==> chunk_indices@.len() == 0 && result@.len() == 0,
                i > 0 ==> chunk_indices@.len() > 0 && self.chunk_ends@[current_chunk_id as int]
                    <= indices@[i - 1] < self.chunk_ends@[current_chunk_id + 1],
                sorted ==> result@.len() <= current_chunk_id || result@.len() == 0,
                concat_elements(result@, result@.len() as int) + (if chunk_indices@.len() > 0 {
                    take_seq(self.chunks@[current_chunk_id as int].elements(), chunk_indices@)
                } else {
                    Seq::empty()
                }) == take_seq(whole, indices@.subrange(0, i as int)),
            decreases indices@.len() - i,
        {
            let set_index = indices[i];
            let (chunk_id, index) = find_chunk_idx(set_index, &self.chunk_ends);
            proof {
                assert(self.chunk_ends@[chunk_id as int] == concat_elements(self.chunks@, chunk_id as int).len());
                assert(self.chunk_ends@[chunk_id + 1] == concat_elements(self.chunks@, chunk_id + 1).len());
                lemma_concat_index(self.chunks@, n as int, chunk_id as int, index as int);
            }
            if chunk_id != current_chunk_id {
                if chunk_indices.len() > 0 {
                    proof {
                        vstd::std_specs::vec::axiom_vec_index_decreases(self.chunks, current_chunk_id as int);
                        assert(decreases_to!(*self => self.chunks));
                        assert(self.chunks@[current_chunk_id as int].wf());
                        if sorted {
                            assert(indices@[i - 1] < indices@[i as int]);
                            if chunk_id < current_chunk_id {
                                assert(self.chunk_ends@[chunk_id + 1] <= self.chunk_ends@[current_chunk_id as int]);
                            }
                        }
                    }
                    let filtered_chunk = take_unchecked(&self.chunks[current_chunk_id], &chunk_indices);
                    proof {
                        lemma_concat_push(result@, filtered_chunk);
                    }
                    result.push(filtered_chunk);
                }
                current_chunk_id = chunk_id;
                chunk_indices = Vec::new();
            }
            let ghost before = if chunk_indices@.len() > 0 {
                take_seq(self.chunks@[current_chunk_id as int].elements(), chunk_indices@)
            } else {
                Seq::empty()
            };
            chunk_indices.push(index);
            proof {
                let cur = self.chunks@[current_chunk_id as int].elements();
                assert(take_seq(cur, chunk_indices@) =~= before.push(cur[index as int]));
                assert(indices@.subrange(0, i + 1) =~= indices@.subrange(0, i as int).push(set_index));
                assert(take_seq(whole, indices@.subrange(0, i + 1)) =~= take_seq(whole, indices@.subrange(0, i as int)).push(whole[set_index as int]));
                assert(concat_elements(result@, result@.len() as int) + before.push(cur[index as int])
                    =~= (concat_elements(result@, result@.len() as int) + before).push(cur[index as int]));
            }
            i += 1;
        }
        if chunk_indices.len() > 0 {
            proof {
                vstd::std_specs::vec::axiom_vec_index_decreases(self.chunks, current_chunk_id as int);
                assert(decreases_to!(*self => self.chunks));
                assert(self.chunks@[current_chunk_id as int].wf());
            }
            let filtered_chunk = take_unchecked(&self.chunks[current_chunk_id], &chunk_indices);
            proof {
                lemma_concat_push(result@, filtered_chunk);
            }
            result.push(filtered_chunk);
        } else {
            assert(concat_elements(result@, result@.len() as int) + Seq::<crate::scalar::Datum>::empty() =~= concat_elements(result@, result@.len() as int));
        }
        proof {
            assert(indices@.subrange(0, indices@.len() as int) =~= indices@);
        }
        result
    }

    /// The elements at positions known to lie within the array, as a chunked array.
    pub fn take_unchecked(&self, indices: &Vec<usize>) -> (r: ChunkedArray)
        requires
            self.wf(),
            indices_in_bounds(indices@, self.elements().len() as int),
        ensures
            r.wf(),
            r.dtype@ == self.dtype@,
            r.elements() == take_seq(self.elements(), indices@),
        decreases self, 2int,
    {
        let chunks = self.take_chunks(indices);
        let m = indices.len();
        assert(take_seq(self.elements(), indices@).len() == m);
        ChunkedArray::from_chunks(chunks, self.dtype.clone())
    }
}

/// What appending one list's positions does to a run of positions and its offsets: the
/// lists before keep their positions, and the new last list holds the piece.
pub proof fn lemma_append_positions(
    old_offsets: Seq<usize>,
    old_flat: Seq<usize>,
    piece: Seq<usize>,
    new_offsets: Seq<usize>,
    new_flat: Seq<usize>,
)
    requires
        old_offsets.len() >= 1,
        crate::array::non_decreasing(old_offsets),
        old_offsets[old_offsets.len() - 1] == old_flat.len(),
        new_flat == old_flat + piece,
        new_flat.len() <= usize::MAX,
        new_offsets == old_offsets.push(new_flat.len() as usize),
    ensures
        crate::array::non_decreasing(new_offsets),
        forall|j: int| 0 <= j < old_offsets.len() - 1 ==> new_flat.subrange(#[trigger] new_offsets[j] as int, new_offsets[j + 1] as int)
            == old_flat.subrange(old_offsets[j] as int, old_offsets[j + 1] as int),
        new_flat.subrange(
            new_offsets[old_offsets.len() - 1] as int,
            new_offsets[old_offsets.len() as int] as int,
        ) == piece,
{
    let k = old_offsets.len() - 1;
    assert forall|i: int, j: int| 0 <= i <= j < new_offsets.len() implies new_offsets[i] <= new_offsets[j] by {
        if j <= k {
            assert(old_offsets[i] <= old_offsets[j]);
        } else if i <= k {
            assert(old_offsets[i] <= old_offsets[k]);
        }
    }
    assert forall|j: int| 0 <= j < k implies new_flat.subrange(#[trigger] new_offsets[j] as int, new_offsets[j + 1] as int)
        == old_flat.subrange(old_offsets[j] as int, old_offsets[j + 1] as int) by {
        assert(old_offsets[j] <= old_offsets[j + 1]);
        assert(old_offsets[j + 1] <= old_offsets[k]);
        assert(new_flat.subrange(new_offsets[j] as int, new_offsets[j + 1] as int)
            =~= old_flat.subrange(old_offsets[j] as int, old_offsets[j + 1] as int));
    }
    assert(new_flat.subrange(new_offsets[k] as int, new_offsets[k + 1] as int) =~= piece);
}

/// The positions `start..stop`.
pub open spec fn positions(start: int, stop: int) -> Seq<usize> {
    Seq::new((stop - start) as nat, |j: int| (start + j) as usize)
}

impl crate::array::ListArray {
    /// The lists at positions known to lie within the array: their elements are gathered
    /// from the child into a new child, list after list.
    #[verifier::rlimit(40)]
    pub fn take_unchecked(&self, indices: &Vec<usize>) -> (r: crate::array::ListArray)
        requires
            self.wf(),
            indices_in_bounds(indices@, self.offsets@.len() - 1),
        ensures
            r.wf(),
            r.dtype@ == self.dtype@,
            r.elements() == take_seq(self.elements(), indices@),
        decreases self,
    {
        let n = self.offsets.len();
        let child_len = self.elements.len();
        let mut flat: Vec<usize> = Vec::new();
        let mut offsets: Vec<usize> = Vec::new();
        offsets.push(0);
        let mut k: usize = 0;
        while k < indices.len()
            invariant
                self.wf(),
                n == self.offsets@.len(),
                child_len == self.elements.elements().len(),
                indices_in_bounds(indices@, n - 1),
                k <= indices@.len(),
                offsets@.len() == k + 1,
                offsets@[k as int] == flat@.len(),
                crate::array::non_decreasing(offsets@),
                indices_in_bounds(flat@, child_len as int),
                forall|j: int| 0 <= j < k ==> flat@.subrange(#[trigger] offsets@[j] as int, offsets@[j + 1] as int)
                    == positions(self.offsets@[indices@[j] as int] as int, self.offsets@[indices@[j] + 1] as int),
            decreases indices@.len() - k,
        {
            let idx = indices[k];
            let start = self.offsets[idx];
            let stop = self.offsets[idx + 1];
            assert(start <= stop <= self.offsets@[n - 1]);
            let ghost old_flat = flat@;
            let ghost old_offsets = offsets@;
            let mut j: usize = start;
            while j < stop
                invariant
                    start <= j <= stop <= child_len,
                    flat@ == old_flat + positions(start as int, j as int),
                    indices_in_bounds(old_flat, child_len as int),
                decreases stop - j,
            {
                flat.push(j);
                assert(flat@ =~= old_flat + positions(start as int, j + 1));
                j += 1;
            }
            offsets.push(flat.len());
            proof {
                lemma_append_positions(old_offsets, old_flat, positions(start as int, stop as int), offsets@, flat@);
                assert forall|q: int| 0 <= q < flat@.len() implies (#[trigger] flat@[q]) < child_len by {
                    if q >= old_flat.len() {
                        assert(flat@[q] == positions(start as int, stop as int)[q - old_flat.len()]);
                    } else {
                        assert(flat@[q] == old_flat[q]);
                    }
                }
            }
            k += 1;
        }
        let elements = take_unchecked(&self.elements, &flat);
        let r = crate::array::ListArray {
            dtype: self.dtype.clone(),
            elements: Box::new(elements),
            offsets_ptype: crate::encodings::varbin::offsets_ptype_for(self.offsets_ptype, flat.len()),
            offsets,
            validity: self.validity.take(indices),
        };
        proof {
            let child = self.elements.elements();
            assert forall|i: int| 0 <= i < indices@.len() implies r.elements()[i] == self.elements()[indices@[i] as int] by {
                let a = r.offsets@[i] as int;
                let b = r.offsets@[i + 1] as int;
                let lo = self.offsets@[indices@[i] as int] as int;
                let hi = self.offsets@[indices@[i] + 1] as int;
                assert(flat@.subrange(a, b) == positions(lo, hi));
                assert(r.offsets@[i] <= r.offsets@[i + 1]);
                assert(r.offsets@[i + 1] <= r.offsets@[indices@.len() as int]);
                assert forall|q: int| 0 <= q < b - a implies r.elements.elements().subrange(a, b)[q] == child.subrange(lo, hi)[q] by {
                    assert(flat@.subrange(a, b)[q] == flat@[a + q]);
                    assert(positions(lo, hi)[q] == lo + q);
                }
                assert(r.elements.elements().subrange(a, b) =~= child.subrange(lo, hi));
            }
            assert(r.elements() =~= take_seq(self.elements(), indices@));
        }
        r
    }
}

impl SparseArray {
    /// The elements at positions known to lie within the array, as a sparse array: the
    /// outputs that hit a patch are its patches.
    #[verifier::rlimit(40)]
    pub fn take_unchecked(&self, indices: &Vec<usize>) -> (r: SparseArray)
        requires
            self.wf(),
            indices_in_bounds(indices@, self.len as int),
        ensures
            r.wf(),
            r.values.dtype_spec() == self.values.dtype_spec(),
            r.elements() == take_seq(self.elements(), indices@),
        decreases self,
    {
        let m = indices.len();
        let mut hits: Vec<usize> = Vec::new();
        let mut patches: Vec<usize> = Vec::new();
        let mut j: usize = 0;
        while j < m
            invariant
                self.wf(),
                m == indices@.len(),
                indices_in_bounds(indices@, self.len as int),
                j <= m,
                hits@.len() == patches@.len(),
                strictly_increasing(hits@),
                forall|p: int| 0 <= p < hits@.len() ==> (#[trigger] hits@[p]) < j,
                indices_in_bounds(patches@, self.indices@.len() as int),
                forall|q: int| 0 <= q < j ==> (if position_of(hits@, q) >= 0 {
                    patches@[position_of(hits@, q)] == #[trigger] position_of(self.indices@, indices@[q] + self.indices_offset)
                } else {
                    position_of(self.indices@, indices@[q] + self.indices_offset) == -1
                }),
            decreases m - j,
        {
            let found = self.search_index(indices[j]);
            let ghost old_hits = hits@;
            let ghost old_patches = patches@;
            match found {
                SearchResult::Found(k) => {
                    hits.push(j);
                    patches.push(k);
                    proof {
                        assert forall|q: int| 0 <= q < j + 1 implies (if position_of(hits@, q) >= 0 {
                            patches@[position_of(hits@, q)] == #[trigger] position_of(self.indices@, indices@[q] + self.indices_offset)
                        } else {
                            position_of(self.indices@, indices@[q] + self.indices_offset) == -1
                        }) by {
                            lemma_position_push(old_hits, j, q);
                            if q < j {
                                if position_of(old_hits, q) >= 0 {
                                    assert(patches@[position_of(old_hits, q)] == old_patches[position_of(old_hits, q)]);
                                }
                            }
                        }
                        lemma_position_push(old_hits, j, 0);
                    }
                },
                SearchResult::NotFound(_) => {
                    proof {
                        if position_of(hits@, j as int) >= 0 {
                            let p = position_of(hits@, j as int);
                            assert(hits@[p] < j);
                        }
                    }
                },
            }
            j += 1;
        }
        let values = take_unchecked(&self.values, &patches);
        let r = SparseArray {
            indices: hits,
            values: Box::new(values),
            len: m,
            indices_offset: 0,
            fill: self.fill.clone(),
        };
        proof {
            assert(r.elements() =~= take_seq(self.elements(), indices@));
        }
        r
    }
}

/// The elements at positions known to lie within the array.
pub fn take_unchecked(array: &ArrayData, indices: &Vec<usize>) -> (r: ArrayData)
    requires
        array.wf(),
        indices_in_bounds(indices@, array.elements().len() as int),
    ensures
        r.wf(),
        r.dtype_spec() == array.dtype_spec(),
        r.elements() == take_seq(array.elements(), indices@),
    decreases array, 0int,
{
    match array {
        ArrayData::Null(_) => {
            let r = NullArray { len: indices.len() };
            assert(r.elements() =~= take_seq(array.elements(), indices@));
            ArrayData::Null(r)
        },
        ArrayData::Bool(a) => {
            let r = BoolArray {
                values: take_values(&a.values, indices),
                validity: a.validity.take(indices),
            };
            assert(r.elements() =~= take_seq(array.elements(), indices@));
            ArrayData::Bool(r)
        },
        ArrayData::Primitive(a) => {
            let r = PrimitiveArray {
                ptype: a.ptype,
                values: take_values(&a.values, indices),
                validity: a.validity.take(indices),
            };
            assert(r.elements() =~= take_seq(array.elements(), indices@));
            assert forall|i: int| 0 <= i < r.values@.len() implies r.ptype.holds(#[trigger] r.values@[i] as int) by {
                assert(r.values@[i] == a.values@[indices@[i] as int]);
            }
            ArrayData::Primitive(r)
        },
        ArrayData::VarBin(a) => ArrayData::VarBin(a.take_unchecked(indices)),
        ArrayData::VarBinView(a) => {
            let mut values: Vec<Vec<u8>> = Vec::new();
            let mut k: usize = 0;
            while k < indices.len()
                invariant
                    k <= indices@.len(),
                    indices_in_bounds(indices@, a.values@.len() as int),
                    values@.len() == k,
                    forall|j: int| 0 <= j < k ==> (#[trigger] values@[j])@ == a.values@[indices@[j] as int]@,
                decreases indices@.len() - k,
            {
                values.push(a.values[indices[k]].clone());
                k += 1;
            }
            let r = VarBinViewArray {
                dtype: a.dtype.clone(),
                values,
                validity: a.validity.take(indices),
            };
            assert(r.elements() =~= take_seq(array.elements(), indices@));
            ArrayData::VarBinView(r)
        },
        ArrayData::Struct(a) => {
            let r = a.take_unchecked(indices);
            proof {
                a.lemma_elements();
                r.lemma_elements();
            }
            ArrayData::Struct(r)
        },
        ArrayData::List(a) => ArrayData::List(a.take_unchecked(indices)),
        ArrayData::Extension(a) => {
            let storage = take_unchecked(&a.storage, indices);
            ArrayData::Extension(ExtensionArray { dtype: a.dtype.clone(), storage: Box::new(storage) })
        },
        ArrayData::Chunked(a) => ArrayData::Chunked(a.take_unchecked(indices)),
        ArrayData::Sparse(a) => ArrayData::Sparse(a.take_unchecked(indices)),
        ArrayData::Constant(a) => {
            let r = ConstantArray { scalar: a.scalar.clone(), len: indices.len() };
            assert(r.elements() =~= take_seq(array.elements(), indices@));
            ArrayData::Constant(r)
        },
    }
}

/// Whether every index lies below `len`.
pub fn check_bounds(indices: &Vec<usize>, len: usize) -> (r: bool)
    ensures r == indices_in_bounds(indices@, len as int),
{
    let mut k: usize = 0;
    while k < indices.len()
        invariant
            k <= indices@.len(),
            forall|j: int| 0 <= j < k ==> (#[trigger] indices@[j]) < len,
        decreases indices@.len() - k,
    {
        if indices[k] >= len {
            return false;
        }
        k += 1;
    }
    true
}

/// The elements at `indices`, in that order, as a new array of the same dtype. An index at
/// or past the length is refused with `InvalidArgument`.
pub fn take(array: &ArrayData, indices: &Vec<usize>) -> (r: Result<ArrayData, VortexError>)
    requires
        array.wf(),
    ensures
        indices_in_bounds(indices@, array.elements().len() as int) ==> r is Ok && r->Ok_0.wf()
            && r->Ok_0@ == taken(array@, indices@),
        !indices_in_bounds(indices@, array.elements().len() as int) ==> r == Err::<
            ArrayData,
            VortexError,
        >(VortexError::InvalidArgument),
{
    if !check_bounds(indices, array.len()) {
        return Err(VortexError::InvalidArgument);
    }
    Ok(take_unchecked(array, indices))
}

/// Whether the elements of an index array are indices into `len` elements: each null, or a
/// position below `len`.
pub open spec fn are_indices(indices: Seq<Datum>, len: int) -> bool {
    forall|k: int| 0 <= k < indices.len() ==> (#[trigger] indices[k]) is Null || (indices[k] is Primitive
        && 0 <= indices[k]->Primitive_0 < len)
}

/// Whether one of the indices is null.
pub open spec fn has_null(indices: Seq<Datum>) -> bool {
    exists|k: int| 0 <= k < indices.len() && (#[trigger] indices[k]) is Null
}

/// The elements that an index array takes: the element at each position, and null where
/// the index is null.
pub open spec fn taken_by(elements: Seq<Datum>, indices: Seq<Datum>) -> Seq<Datum> {
    Seq::new(
        indices.len(),
        |k: int|
            match indices[k] {
                Datum::Primitive(v) => elements[v],
                _ => Datum::Null,
            },
    )
}

/// The elements at the positions that an index array holds, in its order. The indices must
/// be integers. A null index gives a null, which the array's dtype must admit. An index
/// that is negative or at or past the length, an index array of another dtype, or a null
/// index into an array that is not nullable, is refused with `InvalidArgument`.
#[verifier::rlimit(40)]
pub fn take_array(array: &ArrayData, indices: &ArrayData) -> (r: Result<ArrayData, VortexError>)
    requires
        array.wf(),
        indices.wf(),
    ensures
        r is Ok <==> indices.dtype_spec().is_int() && are_indices(
            indices.elements(),
            array.elements().len() as int,
        ) && (has_null(indices.elements()) ==> array.dtype_spec().is_nullable()),
        r is Err ==> r->Err_0 == VortexError::InvalidArgument,
        r is Ok ==> r->Ok_0.wf() && r->Ok_0.dtype_spec() == array.dtype_spec() && r->Ok_0.elements()
            == taken_by(array.elements(), indices.elements()),
{
    let index_dtype = indices.dtype();
    if !index_dtype.is_int() {
        return Err(VortexError::InvalidArgument);
    }
    let dtype = array.dtype();
    let nullable = dtype.is_nullable();
    let len = array.len();
    let n = indices.len();
    let ghost ie = indices.elements();
    let ghost ae = array.elements();
    let mut positions: Vec<usize> = Vec::new();
    let mut hits: Vec<usize> = Vec::new();
    let mut k: usize = 0;
    while k < n
        invariant
            array.wf(),
            indices.wf(),
            ie == indices.elements(),
            ae == array.elements(),
            len == ae.len(),
            n == ie.len(),
            nullable == array.dtype_spec().is_nullable(),
            k <= n,
            hits@.len() == positions@.len(),
            strictly_increasing(hits@),
            forall|p: int| 0 <= p < hits@.len() ==> (#[trigger] hits@[p]) < k,
            indices_in_bounds(positions@, len as int),
            are_indices(ie.subrange(0, k as int), len as int),
            has_null(ie.subrange(0, k as int)) ==> nullable,
            forall|q: int| 0 <= q < k ==> (if position_of(hits@, q) >= 0 {
                #[trigger] ie[q] == Datum::Primitive(positions@[position_of(hits@, q)] as int)
            } else {
                ie[q] is Null
            }),
        decreases n - k,
    {
        let v = crate::compute::scalar_at::value_at(indices, k);
        let ghost old_hits = hits@;
        let ghost old_positions = positions@;
        proof {
            assert(ie.subrange(0, k + 1)[k as int] == ie[k as int]);
        }
        match &v.0 {
            crate::scalar::InnerScalarValue::Primitive(x) => {
                if *x < 0 || *x >= len as i128 {
                    proof {
                        lemma_not_indices(ie, k as int, len as int);
                    }
                    return Err(VortexError::InvalidArgument);
                }
                hits.push(k);
                positions.push(*x as usize);
                proof {
                    assert forall|q: int| 0 <= q < k + 1 implies (if position_of(hits@, q) >= 0 {
                        #[trigger] ie[q] == Datum::Primitive(positions@[position_of(hits@, q)] as int)
                    } else {
                        ie[q] is Null
                    }) by {
                        lemma_position_push(old_hits, k, q);
                        if q < k {
                            if position_of(old_hits, q) >= 0 {
                                assert(positions@[position_of(old_hits, q)] == old_positions[position_of(old_hits, q)]);
                            }
                        }
                    }
                    lemma_position_push(old_hits, k, 0);
                }
            },
            crate::scalar::InnerScalarValue::Null => {
                if !nullable {
                    proof {
                        assert(ie[k as int] is Null);
                    }
                    return Err(VortexError::InvalidArgument);
                }
                proof {
                    if position_of(hits@, k as int) >= 0 {
                        let p = position_of(hits@, k as int);
                        assert(hits@[p] < k);
                    }
                }
            },
            _ => {
                proof {
                    lemma_not_indices(ie, k as int, len as int);
                }
                return Err(VortexError::InvalidArgument);
            },
        }
        proof {
            assert forall|j: int| 0 <= j < k + 1 implies (#[trigger] ie.subrange(0, k + 1)[j]) is Null || (ie.subrange(0, k + 1)[j] is Primitive
                && 0 <= ie.subrange(0, k + 1)[j]->Primitive_0 < len) by {
                if j < k {
                    assert(ie.subrange(0, k as int)[j] == ie[j]);
                }
            }
            if has_null(ie.subrange(0, k + 1)) && !nullable {
                let j = choose|j: int| 0 <= j < k + 1 && (#[trigger] ie.subrange(0, k + 1)[j]) is Null;
                if j < k {
                    assert(ie.subrange(0, k as int)[j] is Null);
                }
            }
        }
        k += 1;
    }
    proof {
        assert(ie.subrange(0, n as int) =~= ie);
    }
    let values = take_unchecked(array, &positions);
    if hits.len() == n {
        proof {
            lemma_all_hit(hits@, n as int);
            assert forall|q: int| 0 <= q < n implies values.elements()[q] == taken_by(ae, ie)[q] by {
                lemma_position_of(hits@, q);
            }
            assert(values.elements() =~= taken_by(ae, ie));
        }
        return Ok(values);
    }
    let r = SparseArray {
        indices: hits,
        values: Box::new(values),
        len: n,
        indices_offset: 0,
        fill: crate::scalar::Scalar::null(dtype),
    };
    proof {
        assert(r.elements() =~= taken_by(ae, ie));
    }
    Ok(ArrayData::Sparse(r))
}

/// Elements one of which is neither null nor a position below `len` are not indices.
pub proof fn lemma_not_indices(indices: Seq<Datum>, k: int, len: int)
    requires
        0 <= k < indices.len(),
        !(indices[k] is Null || (indices[k] is Primitive && 0 <= indices[k]->Primitive_0 < len)),
    ensures
        !are_indices(indices, len),
{
}

/// As many strictly increasing positions below `n` as `n` are the positions `0..n`.
pub proof fn lemma_all_hit(hits: Seq<usize>, n: int)
    requires
        strictly_increasing(hits),
        hits.len() == n,
        forall|p: int| 0 <= p < hits.len() ==> (#[trigger] hits[p]) < n,
    ensures
        forall|p: int| 0 <= p < n ==> (#[trigger] hits[p]) == p,
    decreases n,
{
    if n > 0 {
        let prev = hits.drop_last();
        assert forall|p: int| 0 <= p < prev.len() implies (#[trigger] prev[p]) < n - 1 by {
            assert(hits[p] < hits[n - 1]);
        }
        assert forall|i: int, j: int| 0 <= i < j < prev.len() implies prev[i] < prev[j] by {
            assert(hits[i] < hits[j]);
        }
        lemma_all_hit(prev, n - 1);
        assert forall|p: int| 0 <= p < n implies (#[trigger] hits[p]) == p by {
            if p < n - 1 {
                assert(prev[p] == p);
            } else {
                if n > 1 {
                    assert(hits[n - 2] < hits[n - 1]);
                    assert(prev[n - 2] == n - 2);
                }
            }
        }
    }
}

} // verus!
