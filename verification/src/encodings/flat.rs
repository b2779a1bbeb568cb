//! Constructors of the flat encodings: null, boolean, primitive, string view, constant and
//! extension arrays.

use vstd::prelude::*;

use crate::array::{
    non_decreasing, ArrayData, BoolArray, ConstantArray, ExtensionArray, ListArray, NullArray,
    PrimitiveArray, VarBinViewArray,
};
use crate::dtype::{DType, DTypeView, ExtDType, PType};
use crate::error::VortexError;
use crate::scalar::{Datum, Scalar};
use crate::validity::Validity;

verus! {

impl NullArray {
    /// `len` nulls.
    pub fn new(len: usize) -> (r: NullArray)
        ensures r.len == len,
    {
        NullArray { len }
    }

    pub fn into_array(self) -> (r: ArrayData)
        ensures r == ArrayData::Null(self),
    {
        ArrayData::Null(self)
    }
}

impl ConstantArray {
    /// `scalar`, `len` times.
    pub fn new(scalar: Scalar, len: usize) -> (r: ConstantArray)
        ensures
            r.scalar == scalar,
            r.len == len,
    {
        ConstantArray { scalar, len }
    }

    pub fn into_array(self) -> (r: ArrayData)
        ensures r == ArrayData::Constant(self),
    {
        ArrayData::Constant(self)
    }
}

impl BoolArray {
    /// Booleans with their validity. A validity array of another length than the values is
    /// refused with `InvalidArgument`.
    pub fn try_new(values: Vec<bool>, validity: Validity) -> (r: Result<BoolArray, VortexError>)
        ensures
            r is Ok <==> validity.wf(values@.len() as int),
            r is Err ==> r->Err_0 == VortexError::InvalidArgument,
            r is Ok ==> r->Ok_0.wf() && r->Ok_0.values == values && r->Ok_0.validity == validity,
    {
        match &validity {
            Validity::Array(v) => {
                if v.len() != values.len() {
                    return Err(VortexError::InvalidArgument);
                }
            },
            _ => {},
        }
        Ok(BoolArray { values, validity })
    }

    /// Booleans none of which is null, of a dtype that is not nullable.
    pub fn from_vec(values: Vec<bool>) -> (r: BoolArray)
        ensures
            r.wf(),
            r.values == values,
            r.validity is NonNullable,
    {
        BoolArray { values, validity: Validity::NonNullable }
    }

    /// The values, one per element, whatever their validity.
    pub fn boolean_buffer(&self) -> (r: &Vec<bool>)
        ensures *r == self.values,
    {
        &self.values
    }

    pub fn into_array(self) -> (r: ArrayData)
        ensures r == ArrayData::Bool(self),
    {
        ArrayData::Bool(self)
    }
}

impl PrimitiveArray {
    /// Primitive values of a ptype with their validity. A value outside the ptype's range,
    /// or a validity array of another length than the values, is refused with
    /// `InvalidArgument`.
    pub fn try_new(ptype: PType, values: Vec<i128>, validity: Validity) -> (r: Result<
        PrimitiveArray,
        VortexError,
    >)
        ensures
            r is Ok <==> validity.wf(values@.len() as int) && forall|i: int|
                0 <= i < values@.len() ==> ptype.holds(#[trigger] values@[i] as int),
            r is Err ==> r->Err_0 == VortexError::InvalidArgument,
            r is Ok ==> r->Ok_0.wf() && r->Ok_0.ptype == ptype && r->Ok_0.values == values
                && r->Ok_0.validity == validity,
    {
        match &validity {
            Validity::Array(v) => {
                if v.len() != values.len() {
                    return Err(VortexError::InvalidArgument);
                }
            },
            _ => {},
        }
        let mut i: usize = 0;
        while i < values.len()
            invariant
                i <= values@.len(),
                forall|j: int| 0 <= j < i ==> ptype.holds(#[trigger] values@[j] as int),
            decreases values@.len() - i,
        {
            if !ptype.in_range(values[i]) {
                return Err(VortexError::InvalidArgument);
            }
            i += 1;
        }
        Ok(PrimitiveArray { ptype, values, validity })
    }

    /// The values, one per element, whatever their validity.
    pub fn maybe_null_slice(&self) -> (r: &Vec<i128>)
        ensures *r == self.values,
    {
        &self.values
    }

    pub fn ptype(&self) -> (r: PType)
        ensures r == self.ptype,
    {
        self.ptype
    }

    pub fn into_array(self) -> (r: ArrayData)
        ensures r == ArrayData::Primitive(self),
    {
        ArrayData::Primitive(self)
    }
}

impl VarBinViewArray {
    /// One element per item, `None` a null, of a UTF-8 or binary dtype. A dtype of another
    /// kind, or a null under a dtype that is not nullable, is refused with
    /// `InvalidArgument`.
    #[verifier::loop_isolation(false)]
    pub fn from_iter(iter: Vec<Option<Vec<u8>>>, dtype: DType) -> (r: Result<
        VarBinViewArray,
        VortexError,
    >)
        ensures
            r is Ok <==> (dtype@ is Utf8 || dtype@ is Binary) && (dtype@.is_nullable() || forall|i: int|
                0 <= i < iter@.len() ==> (#[trigger] iter@[i]) is Some),
            r is Err ==> r->Err_0 == VortexError::InvalidArgument,
            r is Ok ==> {
                &&& r->Ok_0.wf()
                &&& r->Ok_0.dtype@ == dtype@
                &&& r->Ok_0.elements().len() == iter@.len()
                &&& forall|i: int| 0 <= i < iter@.len() ==> #[trigger] r->Ok_0.elements()[i] == (match iter@[i] {
                    Some(v) => Datum::Bytes(v@),
                    None => Datum::Null,
                })
            },
    {
        match &dtype {
            DType::Utf8(_) | DType::Binary(_) => {},
            _ => {
                return Err(VortexError::InvalidArgument);
            },
        }
        let nullable = dtype.is_nullable();
        let mut values: Vec<Vec<u8>> = Vec::new();
        let mut valid: Vec<bool> = Vec::new();
        let mut iter = iter;
        let ghost items = iter@;
        let n = iter.len();
        let mut i: usize = 0;
        while i < n
            invariant
                i <= n,
                n == items.len(),
                iter@.len() == n,
                forall|j: int| i <= j < n ==> iter@[j] == items[j],
                values@.len() == i,
                valid@.len() == i,
                nullable || forall|j: int| 0 <= j < i ==> (#[trigger] items[j]) is Some,
                forall|j: int| 0 <= j < i ==> (#[trigger] valid@[j]) == (items[j] is Some),
                forall|j: int| 0 <= j < i && items[j] is Some ==> (#[trigger] values@[j])@ == items[j]->Some_0@,
            decreases n - i,
        {
            let mut item: Option<Vec<u8>> = None;
            std::mem::swap(&mut item, &mut iter[i]);
            match item {
                Some(v) => {
                    values.push(v);
                    valid.push(true);
                },
                None => {
                    if !nullable {
                        assert(items[i as int] is None);
                        return Err(VortexError::InvalidArgument);
                    }
                    values.push(Vec::new());
                    valid.push(false);
                },
            }
            i += 1;
        }
        let validity = if nullable {
            Validity::Array(valid)
        } else {
            Validity::NonNullable
        };
        let r = VarBinViewArray { dtype, values, validity };
        Ok(r)
    }

    pub fn into_array(self) -> (r: ArrayData)
        ensures r == ArrayData::VarBinView(self),
    {
        ArrayData::VarBinView(self)
    }
}

impl ListArray {
    /// Lists over a child array: list `i` holds the child's elements from `offsets[i]` to
    /// `offsets[i + 1]`. The offsets are of an integer ptype that holds the last of them;
    /// there must be an offset, the offsets must never decrease nor run past the child, and
    /// a validity array must have a flag for each list: else `InvalidArgument`.
    pub fn try_new(
        elements: ArrayData,
        offsets_ptype: PType,
        offsets: Vec<usize>,
        validity: Validity,
    ) -> (r: Result<ListArray, VortexError>)
        requires
            elements.wf(),
        ensures
            r is Ok <==> {
                &&& offsets@.len() >= 1
                &&& non_decreasing(offsets@)
                &&& offsets@[offsets@.len() - 1] <= elements.elements().len()
                &&& offsets_ptype.spec_is_int()
                &&& offsets_ptype.holds(offsets@[offsets@.len() - 1] as int)
                &&& validity.wf(offsets@.len() - 1)
            },
            r is Err ==> r->Err_0 == VortexError::InvalidArgument,
            r is Ok ==> {
                &&& r->Ok_0.wf()
                &&& *r->Ok_0.elements == elements
                &&& r->Ok_0.offsets_ptype == offsets_ptype
                &&& r->Ok_0.offsets == offsets
                &&& r->Ok_0.validity == validity
                &&& r->Ok_0.dtype@ == DTypeView::List(
                    Box::new(elements.dtype_spec()),
                    validity.spec_nullability(),
                )
            },
    {
        let n = offsets.len();
        if n == 0 {
            return Err(VortexError::InvalidArgument);
        }
        let mut i: usize = 1;
        while i < n
            invariant
                1 <= i <= n,
                n == offsets@.len(),
                forall|j: int| 0 < j < i ==> offsets@[j - 1] <= #[trigger] offsets@[j],
            decreases n - i,
        {
            if offsets[i - 1] > offsets[i] {
                proof {
                    if non_decreasing(offsets@) {
                        assert(offsets@[i - 1] <= offsets@[i as int]);
                    }
                }
                return Err(VortexError::InvalidArgument);
            }
            i += 1;
        }
        proof {
            assert forall|a: int, b: int| 0 <= a <= b < offsets@.len() implies offsets@[a] <= offsets@[b] by {
                lemma_steps(offsets@, a, b);
            }
        }
        if offsets[n - 1] > elements.len() {
            return Err(VortexError::InvalidArgument);
        }
        if !offsets_ptype.is_int() || !offsets_ptype.in_range(offsets[n - 1] as i128) {
            return Err(VortexError::InvalidArgument);
        }
        match &validity {
            Validity::Array(v) => {
                if v.len() != n - 1 {
                    return Err(VortexError::InvalidArgument);
                }
            },
            _ => {},
        }
        let dtype = DType::List(Box::new(elements.dtype()), validity.nullability());
        Ok(ListArray { dtype, elements: Box::new(elements), offsets_ptype, offsets, validity })
    }

    /// The child array.
    pub fn elements_array(&self) -> (r: &ArrayData)
        ensures *r == *self.elements,
    {
        &self.elements
    }

    /// The offsets.
    pub fn offsets(&self) -> (r: &Vec<usize>)
        ensures *r == self.offsets,
    {
        &self.offsets
    }

    /// The ptype of the offsets.
    pub fn offsets_ptype(&self) -> (r: PType)
        ensures r == self.offsets_ptype,
    {
        self.offsets_ptype
    }

    pub fn into_array(self) -> (r: ArrayData)
        ensures r == ArrayData::List(self),
    {
        ArrayData::List(self)
    }
}

proof fn lemma_steps(s: Seq<usize>, a: int, b: int)
    requires
        forall|j: int| 0 < j < s.len() ==> s[j - 1] <= #[trigger] s[j],
        0 <= a <= b < s.len(),
    ensures
        s[a] <= s[b],
    decreases b - a,
{
    if a < b {
        lemma_steps(s, a, b - 1);
    }
}

impl ExtensionArray {
    /// An extension array over its storage, which must be of the extension's storage dtype:
    /// else `InvalidArgument`.
    pub fn try_new(ext: ExtDType, storage: ArrayData) -> (r: Result<ExtensionArray, VortexError>)
        requires
            storage.wf(),
        ensures
            r is Ok <==> (*ext.storage)@ == storage.dtype_spec(),
            r is Err ==> r->Err_0 == VortexError::InvalidArgument,
            r is Ok ==> r->Ok_0.wf() && *r->Ok_0.storage == storage && r->Ok_0.dtype@
                == DTypeView::Extension(ext.id@, Box::new((*ext.storage)@), ext.metadata@),
    {
        let d = storage.dtype();
        if !(*ext.storage).eq(&d) {
            return Err(VortexError::InvalidArgument);
        }
        Ok(ExtensionArray { dtype: DType::Extension(ext), storage: Box::new(storage) })
    }

    /// The storage array.
    pub fn storage(&self) -> (r: &ArrayData)
        ensures *r == *self.storage,
    {
        &self.storage
    }

    pub fn into_array(self) -> (r: ArrayData)
        ensures r == ArrayData::Extension(self),
    {
        ArrayData::Extension(self)
    }
}

} // verus!
