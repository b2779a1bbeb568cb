//! Filtering: the elements whose flag is set, in a new array of the same dtype.

use vstd::prelude::*;

use crate::array::ArrayData;
use crate::compute::laws::filtered;
use crate::compute::mask::{lemma_filter_is_take, lemma_set_indices, FilterMask};
use crate::compute::take::take_unchecked;
use crate::error::VortexError;

verus! {

/// The elements of `array` whose flag in `mask` is set, in order. A chunked array is
/// filtered chunk by chunk; any other by gathering the set positions. A mask of another
/// length than the array is refused with `InvalidArgument`.
pub fn filter(array: &ArrayData, mask: &FilterMask) -> (r: Result<ArrayData, VortexError>)
    requires
        array.wf(),
        mask.wf(),
    ensures
        mask@.len() == array.elements().len() ==> r is Ok && r->Ok_0.wf() && r->Ok_0@ == filtered(
            array@,
            mask@,
        ),
        mask@.len() != array.elements().len() ==> r == Err::<ArrayData, VortexError>(
            VortexError::InvalidArgument,
        ),
    decreases array, 0int,
{
    match array {
        ArrayData::Chunked(a) => a.filter(mask),
        _ => {
            if mask.len() != array.len() {
                return Err(VortexError::InvalidArgument);
            }
            let indices = mask.iter_indices();
            proof {
                lemma_set_indices(mask@);
                lemma_filter_is_take(array.elements(), mask@);
            }
            Ok(take_unchecked(array, &indices))
        },
    }
}

} // verus!
