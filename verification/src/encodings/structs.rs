//! The struct encoding: named fields side by side.

use vstd::prelude::*;

use crate::array::{dtypes_of, ArrayData, StructArray};
use crate::dtype::{
    dtypes_view, names_view, resolve, resolve_field, DType, DTypeView, Field, StructDType,
};
use crate::error::VortexError;
use crate::validity::Validity;

verus! {

impl StructArray {
    /// A struct array of `len` rows over the given fields. There must be a name for each
    /// field, every field must have `len` elements, and a validity array must have `len`
    /// flags: else `InvalidArgument`.
    pub fn try_new(names: Vec<String>, fields: Vec<ArrayData>, len: usize, validity: Validity) -> (r:
        Result<StructArray, VortexError>)
        requires
            forall|f: int| 0 <= f < fields@.len() ==> (#[trigger] fields@[f]).wf(),
        ensures
            r is Ok <==> {
                &&& names@.len() == fields@.len()
                &&& forall|f: int| 0 <= f < fields@.len() ==> (#[trigger] fields@[f]).elements().len() == len
                &&& validity.wf(len as int)
            },
            r is Err ==> r->Err_0 == VortexError::InvalidArgument,
            r is Ok ==> {
                &&& r->Ok_0.wf()
                &&& r->Ok_0.fields == fields
                &&& r->Ok_0.len == len
                &&& r->Ok_0.validity == validity
                &&& r->Ok_0.dtype@ == DTypeView::Struct(
                    names_view(names@),
                    dtypes_of(fields@),
                    validity.spec_nullability(),
                )
            },
    {
        if names.len() != fields.len() {
            return Err(VortexError::InvalidArgument);
        }
        match &validity {
            Validity::Array(v) => {
                if v.len() != len {
                    return Err(VortexError::InvalidArgument);
                }
            },
            _ => {},
        }
        let mut dtypes: Vec<DType> = Vec::new();
        let mut f: usize = 0;
        while f < fields.len()
            invariant
                f <= fields@.len(),
                forall|j: int| 0 <= j < fields@.len() ==> (#[trigger] fields@[j]).wf(),
                dtypes@.len() == f,
                forall|j: int| 0 <= j < f ==> (#[trigger] fields@[j]).elements().len() == len,
                forall|j: int| 0 <= j < f ==> (#[trigger] dtypes@[j])@ == fields@[j].dtype_spec(),
            decreases fields@.len() - f,
        {
            if fields[f].len() != len {
                return Err(VortexError::InvalidArgument);
            }
            dtypes.push(fields[f].dtype());
            f += 1;
        }
        let nullability = validity.nullability();
        proof {
            assert(dtypes_view(dtypes@) =~= dtypes_of(fields@));
        }
        let dtype = DType::Struct(StructDType { names, dtypes }, nullability);
        Ok(StructArray { dtype, fields, len, validity })
    }

    /// The names of the fields.
    pub fn names(&self) -> (r: Option<&Vec<String>>)
        ensures
            self.dtype@ is Struct ==> r is Some && names_view(r->Some_0@) == self.dtype@->Struct_0,
    {
        match &self.dtype {
            DType::Struct(s, _) => Some(&s.names),
            _ => None,
        }
    }

    /// Field `idx`, if there is one.
    pub fn field(&self, idx: usize) -> (r: Option<ArrayData>)
        ensures
            r is Some <==> idx < self.fields@.len(),
            r is Some ==> r->Some_0@ == self.fields@[idx as int]@ && (self.fields@[idx as int].wf()
                ==> r->Some_0.wf()),
    {
        if idx < self.fields.len() {
            Some(self.fields[idx].clone())
        } else {
            None
        }
    }

    /// The struct of the fields chosen by `projection`, in its order, with the rows'
    /// validity. A field that the struct does not have is refused with `InvalidArgument`.
    #[verifier::rlimit(40)]
    pub fn project(&self, projection: &Vec<Field>) -> (r: Result<StructArray, VortexError>)
        requires
            self.wf(),
        ensures
            r is Ok <==> forall|k: int| 0 <= k < projection@.len() ==> resolve_field(
                self.dtype@->Struct_0,
                #[trigger] projection@[k]@,
            ) is Some,
            r is Err ==> r->Err_0 == VortexError::InvalidArgument,
            r is Ok ==> {
                &&& r->Ok_0.wf()
                &&& r->Ok_0.len == self.len
                &&& r->Ok_0.fields@.len() == projection@.len()
                &&& r->Ok_0.dtype@->Struct_2 == self.dtype@->Struct_2
                &&& forall|i: int| r->Ok_0.validity.valid_at(i) == self.validity.valid_at(i)
                &&& forall|k: int| 0 <= k < projection@.len() ==> {
                    let idx = resolve_field(self.dtype@->Struct_0, projection@[k]@)->Some_0;
                    &&& 0 <= idx < self.fields@.len()
                    &&& (#[trigger] r->Ok_0.fields@[k])@ == self.fields@[idx]@
                    &&& r->Ok_0.dtype@->Struct_0[k] == self.dtype@->Struct_0[idx]
                }
            },
    {
        let names_src = match &self.dtype {
            DType::Struct(s, _) => &s.names,
            _ => {
                assert(false);
                return Err(VortexError::InvalidArgument);
            },
        };
        let mut names: Vec<String> = Vec::new();
        let mut fields: Vec<ArrayData> = Vec::new();
        let mut k: usize = 0;
        while k < projection.len()
            invariant
                self.wf(),
                names_view(names_src@) == self.dtype@->Struct_0,
                k <= projection@.len(),
                names@.len() == k,
                fields@.len() == k,
                forall|j: int| 0 <= j < k ==> resolve_field(self.dtype@->Struct_0, #[trigger] projection@[j]@) is Some,
                forall|j: int| 0 <= j < k ==> (#[trigger] fields@[j]).wf() && fields@[j].elements().len() == self.len,
                forall|j: int| 0 <= j < k ==> 0 <= resolve_field(self.dtype@->Struct_0, #[trigger] projection@[j]@)->Some_0 < self.fields@.len(),
                forall|j: int| 0 <= j < k ==> (#[trigger] fields@[j])@ == self.fields@[resolve_field(self.dtype@->Struct_0, projection@[j]@)->Some_0]@,
                forall|j: int| 0 <= j < k ==> (#[trigger] names@[j])@ == self.dtype@->Struct_0[resolve_field(self.dtype@->Struct_0, projection@[j]@)->Some_0],
            decreases projection@.len() - k,
        {
            match resolve(names_src, &projection[k]) {
                Some(idx) => {
                    assert(names_view(names_src@).len() == names_src@.len());
                    assert(names_src@.len() == self.fields@.len());
                    assert(names_view(names_src@)[idx as int] == names_src@[idx as int]@);
                    assert(self.fields@[idx as int].wf());
                    assert(self.fields@[idx as int].elements().len() == self.len);
                    names.push(names_src[idx].clone());
                    fields.push(self.fields[idx].clone());
                },
                None => {
                    return Err(VortexError::InvalidArgument);
                },
            }
            k += 1;
        }
        let r = Self::try_new(names, fields, self.len, self.validity.clone());
        proof {
            assert(r is Ok);
            assert forall|k: int| 0 <= k < projection@.len() implies r->Ok_0.dtype@->Struct_0[k]
                == self.dtype@->Struct_0[resolve_field(self.dtype@->Struct_0, projection@[k]@)->Some_0] by {
                assert(names_view(names@)[k] == names@[k]@);
                assert(fields@[k].wf());
            }
        }
        r
    }

    pub fn into_array(self) -> (r: ArrayData)
        ensures r == ArrayData::Struct(self),
    {
        ArrayData::Struct(self)
    }
}

} // verus!
