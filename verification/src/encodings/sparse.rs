//! The sparse encoding: construction, and searching its patches.

use vstd::prelude::*;

use crate::array::{strictly_increasing, ArrayData, PrimitiveArray, SparseArray};
use crate::compute::search_sorted::{
    is_search_result, keys_sorted, search_sorted, IndexOrd, Order, SearchResult,
    SearchSortedSide,
};
use crate::error::VortexError;
use crate::scalar::Scalar;

verus! {

/// The keys of a primitive array: its values, nulls as `None`.
pub open spec fn primitive_keys(a: PrimitiveArray) -> Seq<Option<int>> {
    Seq::new(
        a.values@.len(),
        |i: int|
            if a.validity.valid_at(i) {
                Some(a.values@[i] as int)
            } else {
                None
            },
    )
}

impl IndexOrd for PrimitiveArray {
    open spec fn keys(&self) -> Seq<Option<int>> {
        primitive_keys(*self)
    }

    open spec fn searchable(&self) -> bool {
        self.wf()
    }

    fn len(&self) -> (r: usize) {
        self.values.len()
    }

    fn index_order(&self, idx: usize, elem: u64) -> (r: Order) {
        if !self.validity.is_valid(idx) {
            return Order::Greater;
        }
        let v = self.values[idx];
        let e = elem as i128;
        if v < e {
            Order::Less
        } else if v == e {
            Order::Equal
        } else {
            Order::Greater
        }
    }
}

/// What a search of the patch values says of the array: the position of the patch found,
/// or the position after the last patch that stands before the value.
pub open spec fn resolve_patch_search(
    indices: Seq<usize>,
    indices_offset: int,
    found: SearchResult,
) -> SearchResult {
    let n = indices.len() as int;
    match found {
        SearchResult::Found(i) => SearchResult::Found(
            if i == n {
                (indices[n - 1] - indices_offset + 1) as usize
            } else {
                (indices[i as int] - indices_offset) as usize
            },
        ),
        SearchResult::NotFound(i) => SearchResult::NotFound(
            if i == 0 {
                (indices[0] - indices_offset) as usize
            } else {
                (indices[i - 1] - indices_offset + 1) as usize
            },
        ),
    }
}

impl SparseArray {
    /// A fill value everywhere but at `indices`, which hold `values`. The indices must
    /// strictly increase and lie below `len`, one for each value, and the fill be of the
    /// values' dtype: else `InvalidArgument`.
    pub fn try_new(indices: Vec<usize>, values: ArrayData, len: usize, fill: Scalar) -> (r: Result<
        SparseArray,
        VortexError,
    >)
        requires
            values.wf(),
        ensures
            r is Ok <==> {
                &&& indices@.len() == values.elements().len()
                &&& strictly_increasing(indices@)
                &&& forall|k: int| 0 <= k < indices@.len() ==> (#[trigger] indices@[k]) < len
                &&& fill.dtype@ == values.dtype_spec()
            },
            r is Err ==> r->Err_0 == VortexError::InvalidArgument,
            r is Ok ==> {
                &&& r->Ok_0.wf()
                &&& r->Ok_0.indices == indices
                &&& *r->Ok_0.values == values
                &&& r->Ok_0.len == len
                &&& r->Ok_0.indices_offset == 0
                &&& r->Ok_0.fill == fill
            },
    {
        Self::try_new_with_offset(indices, values, len, 0, fill)
    }

    /// As [`SparseArray::try_new`], with indices that count from `indices_offset`.
    pub fn try_new_with_offset(
        indices: Vec<usize>,
        values: ArrayData,
        len: usize,
        indices_offset: usize,
        fill: Scalar,
    ) -> (r: Result<SparseArray, VortexError>)
        requires
            values.wf(),
        ensures
            r is Ok <==> {
                &&& indices@.len() == values.elements().len()
                &&& strictly_increasing(indices@)
                &&& forall|k: int| 0 <= k < indices@.len() ==> indices_offset <= (#[trigger] indices@[k]) < indices_offset + len
                &&& indices_offset + len <= usize::MAX
                &&& fill.dtype@ == values.dtype_spec()
            },
            r is Err ==> r->Err_0 == VortexError::InvalidArgument,
            r is Ok ==> {
                &&& r->Ok_0.wf()
                &&& r->Ok_0.indices == indices
                &&& *r->Ok_0.values == values
                &&& r->Ok_0.len == len
                &&& r->Ok_0.indices_offset == indices_offset
                &&& r->Ok_0.fill == fill
            },
    {
        if indices.len() != values.len() {
            return Err(VortexError::InvalidArgument);
        }
        if len > usize::MAX - indices_offset {
            return Err(VortexError::InvalidArgument);
        }
        let dtype = values.dtype();
        if !fill.dtype.eq(&dtype) {
            return Err(VortexError::InvalidArgument);
        }
        let mut k: usize = 0;
        while k < indices.len()
            invariant
                k <= indices@.len(),
                indices_offset + len <= usize::MAX,
                forall|j: int| 0 <= j < k ==> indices_offset <= (#[trigger] indices@[j]) < indices_offset + len,
                forall|j: int| 0 < j < k ==> indices@[j - 1] < #[trigger] indices@[j],
            decreases indices@.len() - k,
        {
            let idx = indices[k];
            if idx < indices_offset || idx >= indices_offset + len {
                return Err(VortexError::InvalidArgument);
            }
            if k > 0 && indices[k - 1] >= idx {
                proof {
                    if strictly_increasing(indices@) {
                        assert(indices@[k - 1] < indices@[k as int]);
                    }
                }
                return Err(VortexError::InvalidArgument);
            }
            k += 1;
        }
        proof {
            lemma_steps_increase(indices@);
        }
        Ok(SparseArray { indices, values: Box::new(values), len, indices_offset, fill })
    }

    /// The stored positions.
    pub fn indices(&self) -> (r: &Vec<usize>)
        ensures *r == self.indices,
    {
        &self.indices
    }

    /// The patch values.
    pub fn values(&self) -> (r: &ArrayData)
        ensures *r == *self.values,
    {
        &self.values
    }

    pub fn indices_offset(&self) -> (r: usize)
        ensures r == self.indices_offset,
    {
        self.indices_offset
    }

    /// The fill value.
    pub fn fill_scalar(&self) -> (r: Scalar)
        ensures r@ == self.fill@,
    {
        self.fill.clone()
    }

    /// The position of the first patch.
    pub fn min_index(&self) -> (r: Option<usize>)
        requires
            self.wf_shallow(),
        ensures
            self.indices@.len() == 0 ==> r is None,
            self.indices@.len() > 0 ==> r == Some((self.indices@[0] - self.indices_offset) as usize),
    {
        if self.indices.len() == 0 {
            None
        } else {
            Some(self.indices[0] - self.indices_offset)
        }
    }

    /// As [`SparseArray::search_sorted_value`], for a position-sized value.
    pub fn search_sorted_usize(&self, value: usize, side: SearchSortedSide) -> (r: Result<
        SearchResult,
        VortexError,
    >)
        requires
            self.wf(),
            *self.values is Primitive ==> keys_sorted(primitive_keys((*self.values)->Primitive_0)),
        ensures
            r is Ok <==> *self.values is Primitive && self.indices@.len() > 0,
            r is Err ==> r->Err_0 == VortexError::InvalidArgument,
            r is Ok ==> exists|found: SearchResult| #[trigger]
                is_search_result(primitive_keys((*self.values)->Primitive_0), value as int, side, found)
                    && r->Ok_0 == resolve_patch_search(
                    self.indices@,
                    self.indices_offset as int,
                    found,
                ),
    {
        self.search_sorted_value(value as u64, side)
    }

    /// Searches the patch values, which must be primitive and sorted, and gives the result
    /// as a position of the array. An array without patches is refused with
    /// `InvalidArgument`, as is one whose values are not in the primitive encoding.
    pub fn search_sorted_value(&self, value: u64, side: SearchSortedSide) -> (r: Result<
        SearchResult,
        VortexError,
    >)
        requires
            self.wf(),
            *self.values is Primitive ==> keys_sorted(primitive_keys((*self.values)->Primitive_0)),
        ensures
            r is Ok <==> *self.values is Primitive && self.indices@.len() > 0,
            r is Err ==> r->Err_0 == VortexError::InvalidArgument,
            r is Ok ==> exists|found: SearchResult| #[trigger]
                is_search_result(primitive_keys((*self.values)->Primitive_0), value as int, side, found)
                    && r->Ok_0 == resolve_patch_search(
                    self.indices@,
                    self.indices_offset as int,
                    found,
                ),
    {
        let n = self.indices.len();
        if n == 0 {
            return Err(VortexError::InvalidArgument);
        }
        match &*self.values {
            ArrayData::Primitive(p) => {
                assert(p.elements().len() == p.values@.len());
                let found = search_sorted(p, value, side);
                let r = match found {
                    SearchResult::Found(i) => SearchResult::Found(
                        if i == n {
                            self.indices[n - 1] - self.indices_offset + 1
                        } else {
                            self.indices[i] - self.indices_offset
                        },
                    ),
                    SearchResult::NotFound(i) => SearchResult::NotFound(
                        if i == 0 {
                            self.indices[0] - self.indices_offset
                        } else {
                            self.indices[i - 1] - self.indices_offset + 1
                        },
                    ),
                };
                assert(is_search_result(primitive_keys(*p), value as int, side, found));
                Ok(r)
            },
            _ => Err(VortexError::InvalidArgument),
        }
    }

    pub fn into_array(self) -> (r: ArrayData)
        ensures r == ArrayData::Sparse(self),
    {
        ArrayData::Sparse(self)
    }
}

/// Indices each greater than the one before strictly increase.
pub proof fn lemma_steps_increase(indices: Seq<usize>)
    requires
        forall|j: int| 0 < j < indices.len() ==> indices[j - 1] < #[trigger] indices[j],
    ensures
        strictly_increasing(indices),
{
    assert forall|i: int, j: int| 0 <= i < j < indices.len() implies indices[i] < indices[j] by {
        lemma_steps_increase_range(indices, i, j);
    }
}

proof fn lemma_steps_increase_range(indices: Seq<usize>, i: int, j: int)
    requires
        forall|j: int| 0 < j < indices.len() ==> indices[j - 1] < #[trigger] indices[j],
        0 <= i < j < indices.len(),
    ensures
        indices[i] < indices[j],
    decreases j - i,
{
    if i + 1 < j {
        lemma_steps_increase_range(indices, i, j - 1);
    }
}

} // verus!
