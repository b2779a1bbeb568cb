//! Boolean kernels: conjunction, disjunction and counting.

use vstd::prelude::*;

use crate::array::{ArrayData, ArrayView, BoolArray};
use crate::compute::mask::{count_true, true_count_of};
use crate::compute::scalar_at::value_at;
use crate::dtype::{DTypeView, Nullability};
use crate::error::VortexError;
use crate::scalar::{Datum, InnerScalarValue};
use crate::validity::Validity;

verus! {

/// The conjunction of two elements, null where either is not a boolean.
pub open spec fn and_datum(a: Datum, b: Datum) -> Datum {
    match (a, b) {
        (Datum::Bool(x), Datum::Bool(y)) => Datum::Bool(x && y),
        _ => Datum::Null,
    }
}

/// The disjunction of two elements, null where either is not a boolean.
pub open spec fn or_datum(a: Datum, b: Datum) -> Datum {
    match (a, b) {
        (Datum::Bool(x), Datum::Bool(y)) => Datum::Bool(x || y),
        _ => Datum::Null,
    }
}

/// The element-wise conjunction (`conj`) or disjunction of two boolean views: nullable
/// booleans.
pub open spec fn combined(lhs: ArrayView, rhs: ArrayView, conj: bool) -> ArrayView {
    ArrayView {
        dtype: DTypeView::Bool(Nullability::Nullable),
        elements: Seq::new(
            lhs.elements.len(),
            |i: int|
                if conj {
                    and_datum(lhs.elements[i], rhs.elements[i])
                } else {
                    or_datum(lhs.elements[i], rhs.elements[i])
                },
        ),
    }
}

/// For each element, whether it is `true`.
pub open spec fn true_bits(elements: Seq<Datum>) -> Seq<bool> {
    Seq::new(elements.len(), |i: int| elements[i] == Datum::Bool(true))
}

/// The number of elements that are `true`; nulls do not count.
pub fn true_count(array: &ArrayData) -> (r: usize)
    requires
        array.wf(),
    ensures
        r == count_true(true_bits(array.elements())),
{
    let n = array.len();
    let mut bits: Vec<bool> = Vec::new();
    let mut i: usize = 0;
    while i < n
        invariant
            array.wf(),
            n == array.elements().len(),
            i <= n,
            bits@.len() == i,
            forall|j: int| 0 <= j < i ==> (#[trigger] bits@[j]) == (array.elements()[j] == Datum::Bool(true)),
        decreases n - i,
    {
        let v = value_at(array, i);
        let b = match &v.0 {
            InnerScalarValue::Bool(x) => *x,
            _ => false,
        };
        bits.push(b);
        i += 1;
    }
    assert(bits@ =~= true_bits(array.elements()));
    true_count_of(&bits)
}

/// For each element, whether it is null.
pub open spec fn null_bits(elements: Seq<Datum>) -> Seq<bool> {
    Seq::new(elements.len(), |i: int| elements[i] is Null)
}

/// The number of elements that are null.
pub fn null_count(array: &ArrayData) -> (r: usize)
    requires
        array.wf(),
    ensures
        r == count_true(null_bits(array.elements())),
{
    let n = array.len();
    let mut bits: Vec<bool> = Vec::new();
    let mut i: usize = 0;
    while i < n
        invariant
            array.wf(),
            n == array.elements().len(),
            i <= n,
            bits@.len() == i,
            forall|j: int| 0 <= j < i ==> (#[trigger] bits@[j]) == (array.elements()[j] is Null),
        decreases n - i,
    {
        let v = value_at(array, i);
        bits.push(v.is_null());
        i += 1;
    }
    assert(bits@ =~= null_bits(array.elements()));
    true_count_of(&bits)
}

/// The element-wise conjunction (`conj`) or disjunction of two boolean arrays of one length.
/// Arrays that are not boolean, or of different lengths, are refused with
/// `InvalidArgument`.
pub fn combine(lhs: &ArrayData, rhs: &ArrayData, conj: bool) -> (r: Result<ArrayData, VortexError>)
    requires
        lhs.wf(),
        rhs.wf(),
    ensures
        r is Ok <==> lhs.dtype_spec() is Bool && rhs.dtype_spec() is Bool && lhs.elements().len()
            == rhs.elements().len(),
        r is Err ==> r->Err_0 == VortexError::InvalidArgument,
        r is Ok ==> r->Ok_0.wf() && r->Ok_0@ == combined(lhs@, rhs@, conj),
{
    let dl = lhs.dtype();
    let dr = rhs.dtype();
    match (&dl, &dr) {
        (crate::dtype::DType::Bool(_), crate::dtype::DType::Bool(_)) => {},
        _ => {
            return Err(VortexError::InvalidArgument);
        },
    }
    let n = lhs.len();
    if n != rhs.len() {
        return Err(VortexError::InvalidArgument);
    }
    let mut values: Vec<bool> = Vec::new();
    let mut valid: Vec<bool> = Vec::new();
    let mut i: usize = 0;
    while i < n
        invariant
            lhs.wf(),
            rhs.wf(),
            n == lhs.elements().len(),
            n == rhs.elements().len(),
            i <= n,
            values@.len() == i,
            valid@.len() == i,
            forall|j: int| 0 <= j < i ==> combined(lhs@, rhs@, conj).elements[j] == (if #[trigger] valid@[j] {
                Datum::Bool(values@[j])
            } else {
                Datum::Null
            }),
        decreases n - i,
    {
        let a = value_at(lhs, i);
        let b = value_at(rhs, i);
        match (&a.0, &b.0) {
            (InnerScalarValue::Bool(x), InnerScalarValue::Bool(y)) => {
                values.push(if conj {
                    *x && *y
                } else {
                    *x || *y
                });
                valid.push(true);
            },
            _ => {
                values.push(false);
                valid.push(false);
            },
        }
        i += 1;
    }
    let r = BoolArray { values, validity: Validity::Array(valid) };
    proof {
        assert(r.elements() =~= combined(lhs@, rhs@, conj).elements);
    }
    Ok(ArrayData::Bool(r))
}

/// The element-wise conjunction of two boolean arrays, null where either element is.
pub fn and(lhs: &ArrayData, rhs: &ArrayData) -> (r: Result<ArrayData, VortexError>)
    requires
        lhs.wf(),
        rhs.wf(),
    ensures
        r is Ok <==> lhs.dtype_spec() is Bool && rhs.dtype_spec() is Bool && lhs.elements().len()
            == rhs.elements().len(),
        r is Err ==> r->Err_0 == VortexError::InvalidArgument,
        r is Ok ==> r->Ok_0.wf() && r->Ok_0@ == combined(lhs@, rhs@, true),
{
    combine(lhs, rhs, true)
}

/// The element-wise disjunction of two boolean arrays, null where either element is.
pub fn or(lhs: &ArrayData, rhs: &ArrayData) -> (r: Result<ArrayData, VortexError>)
    requires
        lhs.wf(),
        rhs.wf(),
    ensures
        r is Ok <==> lhs.dtype_spec() is Bool && rhs.dtype_spec() is Bool && lhs.elements().len()
            == rhs.elements().len(),
        r is Err ==> r->Err_0 == VortexError::InvalidArgument,
        r is Ok ==> r->Ok_0.wf() && r->Ok_0@ == combined(lhs@, rhs@, false),
{
    combine(lhs, rhs, false)
}

} // verus!
