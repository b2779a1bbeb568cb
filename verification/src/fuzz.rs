//! A reference implementation of slicing, by way of values, against which the slice kernels
//! of the encodings can be held.

use vstd::prelude::*;

use crate::array::ArrayData;
use crate::builders::{all_conform, from_values};
use crate::compute::laws::sliced;
use crate::compute::scalar_at::value_at;
use crate::dtype::DTypeView;
use crate::scalar::{values_view, ScalarValue};

verus! {

/// Whether the reference slice is defined of a dtype: a boolean, primitive, UTF-8 or binary
/// dtype, or a struct of fields of such dtypes.
pub open spec fn reference_dtype(dtype: DTypeView) -> bool
    decreases dtype,
{
    match dtype {
        DTypeView::Bool(_) | DTypeView::Primitive(_, _) | DTypeView::Utf8(_) | DTypeView::Binary(_) => true,
        DTypeView::Struct(_, dtypes, _) => forall|f: int|
            0 <= f < dtypes.len() ==> reference_dtype(#[trigger] dtypes[f]),
        _ => false,
    }
}

/// Whether the reference slice is defined of a range of an array, in whatever encoding the
/// array is: the dtype is one of those above, and the elements of the range are values of
/// it.
pub open spec fn reference_sliceable(a: ArrayData, start: int, stop: int) -> bool {
    reference_dtype(a.dtype_spec()) && all_conform(a.dtype_spec(), a.elements().subrange(start, stop))
}

/// The elements `start..stop` of an array, by spelling out the values and the validity of
/// the range and building the canonical array of the array's dtype from them: for a
/// struct, field by field with the names kept.
pub fn slice_canonical_array(array: &ArrayData, start: usize, stop: usize) -> (r: ArrayData)
    requires
        array.wf(),
        start <= stop <= array.elements().len(),
        reference_sliceable(*array, start as int, stop as int),
    ensures
        r.wf(),
        r.spec_encoding().spec_is_canonical(),
        r@ == sliced(array@, start as int, stop as int),
{
    let dtype = array.dtype();
    let mut values: Vec<ScalarValue> = Vec::new();
    let mut i: usize = start;
    while i < stop
        invariant
            array.wf(),
            start <= i <= stop <= array.elements().len(),
            values@.len() == i - start,
            forall|j: int| 0 <= j < i - start ==> (#[trigger] values@[j]).model() == array.elements()[start + j],
        decreases stop - i,
    {
        let v = value_at(array, i);
        values.push(v);
        i += 1;
    }
    assert(values_view(values@) =~= array.elements().subrange(start as int, stop as int));
    match from_values(&dtype, &values) {
        Ok(c) => c.into_array(),
        Err(_) => vstd::pervasive::unreached(),
    }
}

} // verus!
