//! What slicing, taking and filtering do to an array's view, and the laws that relate them.

use vstd::prelude::*;

use crate::array::ArrayView;
use crate::compute::mask::{
    count_true, filter_seq, identity_indices, indices_in_bounds, lemma_filter_is_take,
    lemma_filter_len, lemma_take_identity, set_indices, take_seq,
};

verus! {

/// The elements `start..stop`, dtype kept.
pub open spec fn sliced(v: ArrayView, start: int, stop: int) -> ArrayView {
    ArrayView { dtype: v.dtype, elements: v.elements.subrange(start, stop) }
}

/// The elements at `indices`, dtype kept.
pub open spec fn taken(v: ArrayView, indices: Seq<usize>) -> ArrayView {
    ArrayView { dtype: v.dtype, elements: take_seq(v.elements, indices) }
}

/// The elements whose flag is set, dtype kept.
pub open spec fn filtered(v: ArrayView, bits: Seq<bool>) -> ArrayView {
    ArrayView { dtype: v.dtype, elements: filter_seq(v.elements, bits) }
}

/// Slicing a slice is slicing once: the range `k..l` of the range `i..j` is the range
/// `i + k..i + l`.
pub proof fn law_slice_composition(v: ArrayView, i: int, j: int, k: int, l: int)
    requires
        0 <= i <= j <= v.elements.len(),
        0 <= k <= l <= j - i,
    ensures
        sliced(sliced(v, i, j), k, l) == sliced(v, i + k, i + l),
{
    assert(v.elements.subrange(i, j).subrange(k, l) =~= v.elements.subrange(i + k, i + l));
}

/// Filtering by a mask is taking at the positions that the mask sets.
pub proof fn law_filter_is_take(v: ArrayView, bits: Seq<bool>)
    requires
        bits.len() == v.elements.len(),
        bits.len() <= usize::MAX,
    ensures
        filtered(v, bits) == taken(v, set_indices(bits)),
        indices_in_bounds(set_indices(bits), v.elements.len() as int),
{
    lemma_filter_is_take(v.elements, bits);
    crate::compute::mask::lemma_set_indices(bits);
}

/// Taking every position in order gives the array back.
pub proof fn law_take_identity(v: ArrayView)
    requires
        v.elements.len() <= usize::MAX,
    ensures
        taken(v, identity_indices(v.elements.len())) == v,
{
    lemma_take_identity(v.elements);
}

/// A filter keeps as many elements as the mask sets, a take gives one element per index,
/// and a slice has the length of its range.
pub proof fn law_lengths(v: ArrayView, bits: Seq<bool>, indices: Seq<usize>, i: int, j: int)
    requires
        bits.len() == v.elements.len(),
        0 <= i <= j <= v.elements.len(),
    ensures
        filtered(v, bits).elements.len() == count_true(bits),
        taken(v, indices).elements.len() == indices.len(),
        sliced(v, i, j).elements.len() == j - i,
{
    lemma_filter_len(v.elements, bits);
}

} // verus!
