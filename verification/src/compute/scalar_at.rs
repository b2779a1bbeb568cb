//! Reading one element of an array.

use vstd::prelude::*;

use crate::array::{
    concat_elements, lemma_concat_index, position_of, strictly_increasing, struct_row,
    ArrayData, SparseArray,
};
use crate::compute::search_sorted::{
    key_le, key_order, keys_sorted, search_sorted, usize_keys, Order, SearchResult,
    SearchSortedSide,
};
use crate::encodings::chunked::find_chunk_idx;
use crate::error::VortexError;
use crate::scalar::{values_view, Scalar, ScalarValue, ScalarView};

verus! {

/// A copy of `bytes[start..stop]`.
pub fn copy_range<T: Copy>(bytes: &Vec<T>, start: usize, stop: usize) -> (r: Vec<T>)
    requires start <= stop <= bytes@.len(),
    ensures r@ == bytes@.subrange(start as int, stop as int),
{
    let mut out: Vec<T> = Vec::new();
    let mut i: usize = start;
    while i < stop
        invariant
            start <= i <= stop <= bytes@.len(),
            out@ == bytes@.subrange(start as int, i as int),
        decreases stop - i,
    {
        out.push(bytes[i]);
        assert(out@ =~= bytes@.subrange(start as int, i + 1));
        i += 1;
    }
    out
}

/// Strictly increasing indices hold a target at one position at most.
pub proof fn lemma_position_of(indices: Seq<usize>, k: int)
    requires
        strictly_increasing(indices),
        0 <= k < indices.len(),
    ensures
        position_of(indices, indices[k] as int) == k,
{
    let t = indices[k] as int;
    let c = choose|j: int| 0 <= j < indices.len() && indices[j] == t;
    if c < k {
        assert(indices[c] < indices[k]);
    } else if k < c {
        assert(indices[k] < indices[c]);
    }
}

/// Strictly increasing indices are sorted keys.
pub proof fn lemma_indices_sorted(indices: Seq<usize>)
    requires strictly_increasing(indices),
    ensures keys_sorted(usize_keys(indices)),
{
    let keys = usize_keys(indices);
    assert forall|i: int, j: int| 0 <= i <= j < keys.len() implies key_le(#[trigger] keys[i], #[trigger] keys[j]) by {
        if i < j {
            assert(indices[i] < indices[j]);
        }
    }
}

impl SparseArray {
    /// Searches the stored positions for logical position `index`: `Found(k)` where patch
    /// `k` sits there, else the number of patches that sit before it.
    pub fn search_index(&self, index: usize) -> (r: SearchResult)
        requires
            self.wf_shallow(),
            index <= self.len,
        ensures
            r.spec_to_index() <= self.indices@.len(),
            r is Found ==> r.spec_to_index() < self.indices@.len() && self.indices@[r.spec_to_index() as int] == index + self.indices_offset
                && position_of(self.indices@, index + self.indices_offset) == r.spec_to_index(),
            r is NotFound ==> position_of(self.indices@, index + self.indices_offset) == -1,
            forall|j: int| 0 <= j < r.spec_to_index() ==> (#[trigger] self.indices@[j]) < index + self.indices_offset,
            forall|j: int| r.spec_to_index() <= j < self.indices@.len() ==> (#[trigger] self.indices@[j]) >= index + self.indices_offset,
    {
        proof {
            lemma_indices_sorted(self.indices@);
        }
        let target = index + self.indices_offset;
        let r = search_sorted(&self.indices, target as u64, SearchSortedSide::Left);
        proof {
            let keys = usize_keys(self.indices@);
            let i = r.spec_to_index() as int;
            assert forall|j: int| 0 <= j < i implies (#[trigger] self.indices@[j]) < target by {
                assert(key_order(keys[j], target as int) == Order::Less);
            }
            assert forall|j: int| i <= j < self.indices@.len() implies (#[trigger] self.indices@[j]) >= target by {
                assert(key_order(keys[j], target as int) != Order::Less);
            }
            if r is Found {
                assert(keys[i] == Some(target as int));
                lemma_position_of(self.indices@, i);
            } else {
                if exists|k: int| 0 <= k < self.indices@.len() && self.indices@[k] == target {
                    let k = choose|k: int| 0 <= k < self.indices@.len() && self.indices@[k] == target;
                    if k < i {
                        assert(self.indices@[k] < target);
                    } else {
                        assert(self.indices@[i] >= target);
                        assert(keys[i] == Some(self.indices@[i] as int));
                        if k > i {
                            assert(self.indices@[i] < self.indices@[k]);
                        }
                    }
                }
            }
        }
        r
    }
}

/// Element `index` of the array, without its type.
#[verifier::loop_isolation(false)]
#[verifier::rlimit(40)]
pub fn value_at(array: &ArrayData, index: usize) -> (r: ScalarValue)
    requires
        array.wf(),
        index < array.elements().len(),
    ensures
        r@ == array.elements()[index as int],
    decreases array,
{
    match array {
        ArrayData::Null(_) => ScalarValue::null(),
        ArrayData::Bool(a) => {
            if a.validity.is_valid(index) {
                ScalarValue::bool(a.values[index])
            } else {
                ScalarValue::null()
            }
        },
        ArrayData::Primitive(a) => {
            if a.validity.is_valid(index) {
                ScalarValue::primitive(a.values[index])
            } else {
                ScalarValue::null()
            }
        },
        ArrayData::VarBin(a) => {
            let n = a.offsets.len();
            assert(index < n - 1);
            if a.validity.is_valid(index) {
                assert(a.offsets@[index as int] <= a.offsets@[index + 1]);
                assert(a.offsets@[index + 1] <= a.offsets@[a.offsets@.len() - 1]);
                ScalarValue::buffer(copy_range(&a.bytes, a.offsets[index], a.offsets[index + 1]))
            } else {
                ScalarValue::null()
            }
        },
        ArrayData::VarBinView(a) => {
            if a.validity.is_valid(index) {
                ScalarValue::buffer(a.values[index].clone())
            } else {
                ScalarValue::null()
            }
        },
        ArrayData::Struct(a) => {
            if a.validity.is_valid(index) {
                let mut values: Vec<ScalarValue> = Vec::new();
                let mut f: usize = 0;
                while f < a.fields.len()
                    invariant
                        f <= a.fields@.len(),
                        values@.len() == f,
                        forall|j: int| 0 <= j < f ==> (#[trigger] values@[j]).model() == a.fields@[j].elements()[index as int],
                    decreases a.fields@.len() - f,
                {
                    proof {
                        vstd::std_specs::vec::axiom_vec_index_decreases(a.fields, f as int);
                        assert(decreases_to!(*array => array->Struct_0));
                        assert(decreases_to!(array->Struct_0 => (array->Struct_0).fields));
                        assert(a.fields@[f as int].wf());
                    }
                    let v = value_at(&a.fields[f], index);
                    values.push(v);
                    f += 1;
                }
                assert(values_view(values@) =~= struct_row(a.fields@, index as int));
                ScalarValue::list(values)
            } else {
                ScalarValue::null()
            }
        },
        ArrayData::List(a) => {
            let n = a.offsets.len();
            assert(index < n - 1);
            if a.validity.is_valid(index) {
                let start = a.offsets[index];
                let stop = a.offsets[index + 1];
                assert(a.offsets@[index as int] <= a.offsets@[index + 1]);
                assert(a.offsets@[index + 1] <= a.offsets@[n - 1]);
                let mut values: Vec<ScalarValue> = Vec::new();
                let mut j: usize = start;
                while j < stop
                    invariant
                        start <= j <= stop,
                        values@.len() == j - start,
                        forall|q: int| 0 <= q < j - start ==> (#[trigger] values@[q]).model() == a.elements.elements()[start + q],
                    decreases stop - j,
                {
                    let v = value_at(&a.elements, j);
                    values.push(v);
                    j += 1;
                }
                assert(values_view(values@) =~= a.elements.elements().subrange(start as int, stop as int));
                ScalarValue::list(values)
            } else {
                ScalarValue::null()
            }
        },
        ArrayData::Extension(a) => value_at(&a.storage, index),
        ArrayData::Chunked(a) => {
            proof {
                a.lemma_ends_sorted();
            }
            let (k, offset) = find_chunk_idx(index, &a.chunk_ends);
            proof {
                let n = a.chunks@.len() as int;
                assert(a.chunk_ends@[n] == concat_elements(a.chunks@, n).len());
                assert(a.chunk_ends@[k as int] == concat_elements(a.chunks@, k as int).len());
                assert(a.chunk_ends@[k + 1] == concat_elements(a.chunks@, k + 1).len());
                assert(a.chunks@[k as int].wf());
                lemma_concat_index(a.chunks@, n, k as int, offset as int);
                vstd::std_specs::vec::axiom_vec_index_decreases(a.chunks, k as int);
                assert(decreases_to!(*array => array->Chunked_0));
                assert(decreases_to!(array->Chunked_0 => (array->Chunked_0).chunks));
            }
            value_at(&a.chunks[k], offset)
        },
        ArrayData::Sparse(a) => {
            match a.search_index(index) {
                SearchResult::Found(k) => value_at(&a.values, k),
                SearchResult::NotFound(_) => a.fill.value.clone(),
            }
        },
        ArrayData::Constant(a) => a.scalar.value.clone(),
    }
}

/// Element `index` of the array as a scalar of the array's dtype. An index at or past the
/// length is refused with `InvalidArgument`.
pub fn scalar_at(array: &ArrayData, index: usize) -> (r: Result<Scalar, VortexError>)
    requires
        array.wf(),
    ensures
        index < array.elements().len() ==> r is Ok && r->Ok_0@ == (ScalarView {
            dtype: array.dtype_spec(),
            value: array.elements()[index as int],
        }),
        index >= array.elements().len() ==> r == Err::<Scalar, VortexError>(
            VortexError::InvalidArgument,
        ),
{
    if index >= array.len() {
        return Err(VortexError::InvalidArgument);
    }
    Ok(Scalar { dtype: array.dtype(), value: value_at(array, index) })
}

} // verus!
