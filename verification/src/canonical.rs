//! Canonical forms: the one encoding per dtype that every array can be brought to.

use vstd::prelude::*;

use crate::array::{
    ArrayData, BoolArray, EncodingId, ExtensionArray, ListArray, NullArray, PrimitiveArray,
    StructArray, VarBinViewArray,
};
use crate::array::concat_elements;
use crate::builders::{
    all_conform, from_values, law_well_typed_arrays_conform, values_of, well_typed,
};
use crate::compute::scalar_at::value_at;
use crate::encodings::chunked_variants::{field_elements, fields_concat, has_storage};
use crate::dtype::{DType, DTypeView, Nullability};
use crate::error::VortexError;
use crate::scalar::Datum;
use crate::validity::Validity;

verus! {

/// An array in the canonical encoding of its dtype. The children of a canonical array need
/// not be canonical themselves.
#[derive(Debug)]
pub enum Canonical {
    Null(NullArray),
    Bool(BoolArray),
    Primitive(PrimitiveArray),
    Struct(StructArray),
    List(ListArray),
    VarBinView(VarBinViewArray),
    Extension(ExtensionArray),
}

/// Whether an element is one that a flat dtype admits: a value of the dtype's kind, within
/// the ptype's range if primitive, or null where the dtype is nullable.
pub open spec fn admits(dtype: DTypeView, d: Datum) -> bool {
    match d {
        Datum::Null => dtype.is_nullable(),
        Datum::Bool(_) => dtype is Bool,
        Datum::Primitive(v) => dtype is Primitive && dtype->Primitive_0.holds(v),
        Datum::Bytes(_) => dtype is Utf8 || dtype is Binary,
        Datum::List(_) => false,
    }
}

/// Whether a dtype is flat: null, boolean, primitive, UTF-8 or binary.
pub open spec fn is_flat(dtype: DTypeView) -> bool {
    dtype is Null || dtype is Bool || dtype is Primitive || dtype is Utf8 || dtype is Binary
}

/// Whether an array is a struct array, or chunks of such.
pub open spec fn is_struct_like(a: ArrayData) -> bool
    decreases a,
{
    match a {
        ArrayData::Struct(_) => true,
        ArrayData::Chunked(c) => forall|k: int| 0 <= k < c.chunks@.len() ==> is_struct_like(#[trigger] c.chunks@[k]),
        _ => false,
    }
}

/// Whether an array can be brought to canonical form: one that is in a canonical encoding
/// already; chunks of struct arrays of a dtype with a name for each field; chunks of
/// extension arrays, at least one; and any array whose elements are values of its dtype.
pub open spec fn canonicalizable(a: ArrayData) -> bool {
    a.spec_encoding().spec_is_canonical() || (a is Chunked && a.dtype_spec() is Struct
        && a.dtype_spec()->Struct_0.len() == a.dtype_spec()->Struct_1.len() && is_struct_like(a)) || (
    a is Chunked && a.dtype_spec() is Extension && has_storage(a)) || all_conform(
        a.dtype_spec(),
        a.elements(),
    )
}

/// The row of an array of structs at position `i`, from its fields.
pub open spec fn row_of(a: ArrayData, i: int) -> Seq<Datum> {
    Seq::new(a.dtype_spec()->Struct_1.len(), |f: int| field_elements(a, f)->Some_0[i])
}

/// What holds of a struct array, or of chunks of such: every field of the dtype is a field
/// of the array, as long as the array; each element is null or the row of the fields; and
/// none is null unless the dtype is nullable.
pub open spec fn rows_hold(a: ArrayData) -> bool {
    &&& forall|f: int| 0 <= f < a.dtype_spec()->Struct_1.len() ==> (#[trigger] field_elements(a, f)) is Some
        && field_elements(a, f)->Some_0.len() == a.elements().len()
    &&& forall|i: int| 0 <= i < a.elements().len() ==> (#[trigger] a.elements()[i]) is Null || a.elements()[i]
        == Datum::List(row_of(a, i))
    &&& a.dtype_spec()->Struct_2 == Nullability::NonNullable ==> forall|i: int|
        0 <= i < a.elements().len() ==> !((#[trigger] a.elements()[i]) is Null)
}

/// The rows of chunks `0..n` hold of the chunks laid end to end.
pub proof fn lemma_rows_of_chunks(chunks: Seq<ArrayData>, dtype: DTypeView, n: int)
    requires
        0 <= n <= chunks.len(),
        dtype is Struct,
        forall|k: int| 0 <= k < chunks.len() ==> (#[trigger] chunks[k]).wf() && chunks[k].dtype_spec() == dtype
            && is_struct_like(chunks[k]),
    ensures
        forall|f: int| 0 <= f < dtype->Struct_1.len() ==> (#[trigger] fields_concat(chunks, f, n)) is Some
            && fields_concat(chunks, f, n)->Some_0.len() == concat_elements(chunks, n).len(),
        forall|i: int| 0 <= i < concat_elements(chunks, n).len() ==> (#[trigger] concat_elements(chunks, n)[i]) is Null
            || concat_elements(chunks, n)[i] == Datum::List(
            Seq::new(dtype->Struct_1.len(), |f: int| fields_concat(chunks, f, n)->Some_0[i]),
        ),
        dtype->Struct_2 == Nullability::NonNullable ==> forall|i: int|
            0 <= i < concat_elements(chunks, n).len() ==> !((#[trigger] concat_elements(chunks, n)[i]) is Null),
    decreases chunks, n,
{
    if n > 0 {
        lemma_rows_of_chunks(chunks, dtype, n - 1);
        let last = chunks[n - 1];
        lemma_rows(last);
        let before = concat_elements(chunks, n - 1);
        let whole = concat_elements(chunks, n);
        assert forall|i: int| 0 <= i < whole.len() implies (#[trigger] whole[i]) is Null || whole[i]
            == Datum::List(Seq::new(dtype->Struct_1.len(), |f: int| fields_concat(chunks, f, n)->Some_0[i])) by {
            if !(whole[i] is Null) {
                if i < before.len() {
                    assert(whole[i] == before[i]);
                    assert(Seq::new(dtype->Struct_1.len(), |f: int| fields_concat(chunks, f, n)->Some_0[i])
                        =~= Seq::new(dtype->Struct_1.len(), |f: int| fields_concat(chunks, f, n - 1)->Some_0[i])) by {
                        assert forall|f: int| 0 <= f < dtype->Struct_1.len() implies fields_concat(chunks, f, n)->Some_0[i]
                            == fields_concat(chunks, f, n - 1)->Some_0[i] by {
                            assert(fields_concat(chunks, f, n - 1) is Some);
                            assert(field_elements(last, f) is Some);
                        }
                    }
                } else {
                    let j = i - before.len();
                    assert(whole[i] == last.elements()[j]);
                    assert(last.elements()[j] == Datum::List(row_of(last, j)));
                    assert(row_of(last, j) =~= Seq::new(dtype->Struct_1.len(), |f: int| fields_concat(chunks, f, n)->Some_0[i])) by {
                        assert forall|f: int| 0 <= f < dtype->Struct_1.len() implies fields_concat(chunks, f, n)->Some_0[i]
                            == field_elements(last, f)->Some_0[j] by {
                            assert(fields_concat(chunks, f, n - 1) is Some);
                            assert(field_elements(last, f) is Some);
                            assert(fields_concat(chunks, f, n - 1)->Some_0.len() == before.len());
                        }
                    }
                }
            }
        }
        assert forall|f: int| 0 <= f < dtype->Struct_1.len() implies (#[trigger] fields_concat(chunks, f, n)) is Some
            && fields_concat(chunks, f, n)->Some_0.len() == whole.len() by {
            assert(fields_concat(chunks, f, n - 1) is Some);
            assert(field_elements(last, f) is Some);
        }
        if dtype->Struct_2 == Nullability::NonNullable {
            assert forall|i: int| 0 <= i < whole.len() implies !((#[trigger] whole[i]) is Null) by {
                if i < before.len() {
                    assert(whole[i] == before[i]);
                } else {
                    assert(whole[i] == last.elements()[i - before.len()]);
                }
            }
        }
    }
}

/// The rows of a struct array, or of chunks of such, are the rows of its fields.
pub proof fn lemma_rows(a: ArrayData)
    requires
        a.wf(),
        a.dtype_spec() is Struct,
        is_struct_like(a),
    ensures
        rows_hold(a),
    decreases a, 0int,
{
    match a {
        ArrayData::Struct(s) => {
            s.lemma_elements();
            assert(s.dtype@->Struct_1.len() == s.fields@.len());
            assert forall|f: int| 0 <= f < a.dtype_spec()->Struct_1.len() implies (#[trigger] field_elements(a, f)) is Some
                && field_elements(a, f)->Some_0.len() == a.elements().len() by {
                assert(s.fields@[f].elements().len() == s.len);
            }
            assert forall|i: int| 0 <= i < a.elements().len() implies (#[trigger] a.elements()[i]) is Null || a.elements()[i]
                == Datum::List(row_of(a, i)) by {
                assert(row_of(a, i) =~= crate::array::struct_row(s.fields@, i));
            }
            if a.dtype_spec()->Struct_2 == Nullability::NonNullable {
                assert forall|i: int| 0 <= i < a.elements().len() implies !((#[trigger] a.elements()[i]) is Null) by {
                    assert(s.validity.valid_at(i));
                }
            }
            assert(rows_hold(a));
        },
        ArrayData::Chunked(c) => {
            assert forall|k: int| 0 <= k < c.chunks@.len() implies (#[trigger] c.chunks@[k]).wf() && c.chunks@[k].dtype_spec()
                == c.dtype@ && is_struct_like(c.chunks@[k]) by {}
            lemma_rows_of_chunks(c.chunks@, c.dtype@, c.chunks@.len() as int);
            let n = c.chunks@.len() as int;
            assert(a.elements() == concat_elements(c.chunks@, n));
            assert forall|f: int| 0 <= f < a.dtype_spec()->Struct_1.len() implies (#[trigger] field_elements(a, f)) is Some
                && field_elements(a, f)->Some_0.len() == a.elements().len() by {
                assert(fields_concat(c.chunks@, f, n) is Some);
            }
            assert forall|i: int| 0 <= i < a.elements().len() implies (#[trigger] a.elements()[i]) is Null || a.elements()[i]
                == Datum::List(row_of(a, i)) by {
                assert(row_of(a, i) =~= Seq::new(c.dtype@->Struct_1.len(), |f: int| fields_concat(c.chunks@, f, n)->Some_0[i]));
                assert(concat_elements(c.chunks@, n)[i] is Null || concat_elements(c.chunks@, n)[i] == Datum::List(
                    Seq::new(c.dtype@->Struct_1.len(), |f: int| fields_concat(c.chunks@, f, n)->Some_0[i]),
                ));
            }
            if a.dtype_spec()->Struct_2 == Nullability::NonNullable {
                assert forall|i: int| 0 <= i < a.elements().len() implies !((#[trigger] a.elements()[i]) is Null) by {
                    assert(!(concat_elements(c.chunks@, n)[i] is Null));
                }
            }
            assert(rows_hold(a));
        },
        _ => {},
    }
}

/// Whether an array is a struct array, or chunks of such.
pub fn check_struct_like(a: &ArrayData) -> (r: bool)
    ensures
        r == is_struct_like(*a),
    decreases a,
{
    match a {
        ArrayData::Struct(_) => true,
        ArrayData::Chunked(c) => {
            let mut k: usize = 0;
            while k < c.chunks.len()
                invariant
                    *a == ArrayData::Chunked(*c),
                    k <= c.chunks@.len(),
                    forall|j: int| 0 <= j < k ==> is_struct_like(#[trigger] c.chunks@[j]),
                decreases c.chunks@.len() - k,
            {
                proof {
                    vstd::std_specs::vec::axiom_vec_index_decreases(c.chunks, k as int);
                    assert(decreases_to!(*a => a->Chunked_0));
                    assert(decreases_to!(a->Chunked_0 => (a->Chunked_0).chunks));
                }
                if !check_struct_like(&c.chunks[k]) {
                    return false;
                }
                k += 1;
            }
            true
        },
        _ => false,
    }
}

/// Chunks of struct arrays as one struct array whose fields are the chunks' fields,
/// chunked.
#[verifier::rlimit(40)]
fn swizzle(array: &ArrayData) -> (r: StructArray)
    requires
        array.wf(),
        array is Chunked,
        array.dtype_spec() is Struct,
        array.dtype_spec()->Struct_0.len() == array.dtype_spec()->Struct_1.len(),
        is_struct_like(*array),
    ensures
        r.wf(),
        ArrayData::Struct(r)@ == array@,
{
    let c = match array {
        ArrayData::Chunked(c) => c,
        _ => vstd::pervasive::unreached(),
    };
    proof {
        lemma_rows(*array);
    }
    let len = array.len();
    let (names_src, nullable) = match &c.dtype {
        DType::Struct(s, n) => (&s.names, *n),
        _ => vstd::pervasive::unreached(),
    };
    let nfields = match &c.dtype {
        DType::Struct(s, _) => {
            assert(crate::dtype::dtypes_view(s.dtypes@).len() == s.dtypes@.len());
            s.dtypes.len()
        },
        _ => 0,
    };
    let mut fields: Vec<ArrayData> = Vec::new();
    let mut f: usize = 0;
    while f < nfields
        invariant
            array.wf(),
            *array == ArrayData::Chunked(*c),
            c.dtype@ is Struct,
            nfields == c.dtype@->Struct_1.len(),
            rows_hold(*array),
            f <= nfields,
            fields@.len() == f,
            forall|j: int| 0 <= j < f ==> (#[trigger] fields@[j]).wf() && fields@[j].elements() == field_elements(*array, j)->Some_0
                && fields@[j].dtype_spec() == c.dtype@->Struct_1[j],
        decreases nfields - f,
    {
        assert(field_elements(*array, f as int) is Some);
        match c.field(f) {
            Some(x) => fields.push(x),
            None => {
                assert(false);
            },
        }
        f += 1;
    }
    let mut flags: Vec<bool> = Vec::new();
    let mut i: usize = 0;
    while i < len
        invariant
            array.wf(),
            len == array.elements().len(),
            i <= len,
            flags@.len() == i,
            forall|j: int| 0 <= j < i ==> (#[trigger] flags@[j]) == !(array.elements()[j] is Null),
        decreases len - i,
    {
        let v = value_at(array, i);
        flags.push(!v.is_null());
        i += 1;
    }
    let validity = match nullable {
        Nullability::Nullable => Validity::from_bools(flags),
        Nullability::NonNullable => Validity::NonNullable,
    };
    let mut names: Vec<String> = Vec::new();
    let mut k: usize = 0;
    while k < names_src.len()
        invariant
            k <= names_src@.len(),
            names@.len() == k,
            forall|j: int| 0 <= j < k ==> (#[trigger] names@[j])@ == names_src@[j]@,
        decreases names_src@.len() - k,
    {
        names.push(names_src[k].clone());
        k += 1;
    }
    proof {
        assert(crate::dtype::names_view(names@) =~= crate::dtype::names_view(names_src@));
        assert(crate::dtype::names_view(names_src@).len() == names_src@.len());
        assert forall|j: int| 0 <= j < fields@.len() implies (#[trigger] fields@[j]).elements().len() == len by {
            assert(field_elements(*array, j) is Some);
        }
        assert(crate::array::dtypes_of(fields@) =~= c.dtype@->Struct_1);
    }
    match StructArray::try_new(names, fields, len, validity) {
        Ok(r) => {
            proof {
                r.lemma_elements();
                assert forall|i: int| 0 <= i < len implies r.elements()[i] == array.elements()[i] by {
                    assert(crate::array::struct_row(r.fields@, i) =~= row_of(*array, i)) by {
                        assert forall|g: int| 0 <= g < r.fields@.len() implies crate::array::struct_row(r.fields@, i)[g]
                            == row_of(*array, i)[g] by {
                            assert(r.fields@[g].elements() == field_elements(*array, g)->Some_0);
                        }
                    }
                    assert(flags@[i] == !(array.elements()[i] is Null));
                }
                assert(r.elements() =~= array.elements());
            }
            r
        },
        Err(_) => vstd::pervasive::unreached(),
    }
}

impl Canonical {
    /// The canonical array as an array.
    pub open spec fn array(self) -> ArrayData {
        match self {
            Canonical::Null(a) => ArrayData::Null(a),
            Canonical::Bool(a) => ArrayData::Bool(a),
            Canonical::Primitive(a) => ArrayData::Primitive(a),
            Canonical::Struct(a) => ArrayData::Struct(a),
            Canonical::List(a) => ArrayData::List(a),
            Canonical::VarBinView(a) => ArrayData::VarBinView(a),
            Canonical::Extension(a) => ArrayData::Extension(a),
        }
    }

    /// The empty canonical array of a dtype. A struct dtype that has not a name for each
    /// field, alone or within, is refused with `Unsupported`.
    pub fn empty(dtype: &DType) -> (r: Result<Canonical, VortexError>)
        ensures
            r is Ok <==> has_canonical(dtype@),
            r is Err ==> r->Err_0 == VortexError::Unsupported,
            r is Ok ==> r->Ok_0.array().wf() && r->Ok_0.array().dtype_spec() == dtype@
                && r->Ok_0.array().elements().len() == 0,
    {
        empty_of(dtype)
    }

    /// The canonical array as an array, at no cost.
    pub fn into_array(self) -> (r: ArrayData)
        ensures
            r == self.array(),
            r.spec_encoding().spec_is_canonical(),
    {
        match self {
            Canonical::Null(a) => ArrayData::Null(a),
            Canonical::Bool(a) => ArrayData::Bool(a),
            Canonical::Primitive(a) => ArrayData::Primitive(a),
            Canonical::Struct(a) => ArrayData::Struct(a),
            Canonical::List(a) => ArrayData::List(a),
            Canonical::VarBinView(a) => ArrayData::VarBinView(a),
            Canonical::Extension(a) => ArrayData::Extension(a),
        }
    }

    /// The list array, if that is what this is: else `InvalidArgument`.
    pub fn into_list(self) -> (r: Result<ListArray, VortexError>)
        ensures
            self is List ==> r == Ok::<ListArray, VortexError>(self->List_0),
            !(self is List) ==> r == Err::<ListArray, VortexError>(VortexError::InvalidArgument),
    {
        match self {
            Canonical::List(a) => Ok(a),
            _ => Err(VortexError::InvalidArgument),
        }
    }

    /// The null array, if that is what this is: else `InvalidArgument`.
    pub fn into_null(self) -> (r: Result<NullArray, VortexError>)
        ensures
            self is Null ==> r == Ok::<NullArray, VortexError>(self->Null_0),
            !(self is Null) ==> r == Err::<NullArray, VortexError>(VortexError::InvalidArgument),
    {
        match self {
            Canonical::Null(a) => Ok(a),
            _ => Err(VortexError::InvalidArgument),
        }
    }

    /// The boolean array, if that is what this is: else `InvalidArgument`.
    pub fn into_bool(self) -> (r: Result<BoolArray, VortexError>)
        ensures
            self is Bool ==> r == Ok::<BoolArray, VortexError>(self->Bool_0),
            !(self is Bool) ==> r == Err::<BoolArray, VortexError>(VortexError::InvalidArgument),
    {
        match self {
            Canonical::Bool(a) => Ok(a),
            _ => Err(VortexError::InvalidArgument),
        }
    }

    /// The primitive array, if that is what this is: else `InvalidArgument`.
    pub fn into_primitive(self) -> (r: Result<PrimitiveArray, VortexError>)
        ensures
            self is Primitive ==> r == Ok::<PrimitiveArray, VortexError>(self->Primitive_0),
            !(self is Primitive) ==> r == Err::<PrimitiveArray, VortexError>(
                VortexError::InvalidArgument,
            ),
    {
        match self {
            Canonical::Primitive(a) => Ok(a),
            _ => Err(VortexError::InvalidArgument),
        }
    }

    /// The struct array, if that is what this is: else `InvalidArgument`.
    pub fn into_struct(self) -> (r: Result<StructArray, VortexError>)
        ensures
            self is Struct ==> r == Ok::<StructArray, VortexError>(self->Struct_0),
            !(self is Struct) ==> r == Err::<StructArray, VortexError>(VortexError::InvalidArgument),
    {
        match self {
            Canonical::Struct(a) => Ok(a),
            _ => Err(VortexError::InvalidArgument),
        }
    }

    /// The string array, if that is what this is: else `InvalidArgument`.
    pub fn into_varbinview(self) -> (r: Result<VarBinViewArray, VortexError>)
        ensures
            self is VarBinView ==> r == Ok::<VarBinViewArray, VortexError>(self->VarBinView_0),
            !(self is VarBinView) ==> r == Err::<VarBinViewArray, VortexError>(
                VortexError::InvalidArgument,
            ),
    {
        match self {
            Canonical::VarBinView(a) => Ok(a),
            _ => Err(VortexError::InvalidArgument),
        }
    }

    /// The extension array, if that is what this is: else `InvalidArgument`.
    pub fn into_extension(self) -> (r: Result<ExtensionArray, VortexError>)
        ensures
            self is Extension ==> r == Ok::<ExtensionArray, VortexError>(self->Extension_0),
            !(self is Extension) ==> r == Err::<ExtensionArray, VortexError>(
                VortexError::InvalidArgument,
            ),
    {
        match self {
            Canonical::Extension(a) => Ok(a),
            _ => Err(VortexError::InvalidArgument),
        }
    }
}

/// Whether a dtype can have arrays: a struct must have a name for each of its fields.
pub open spec fn has_canonical(dtype: DTypeView) -> bool
    decreases dtype,
{
    match dtype {
        DTypeView::List(e, _) => has_canonical(*e),
        DTypeView::Struct(names, dtypes, _) => names.len() == dtypes.len() && forall|i: int|
            0 <= i < dtypes.len() ==> has_canonical(#[trigger] dtypes[i]),
        DTypeView::Extension(_, storage, _) => has_canonical(*storage),
        _ => true,
    }
}

/// The empty canonical array of a dtype, field by field.
#[verifier::loop_isolation(false)]
#[verifier::rlimit(40)]
fn empty_of(dtype: &DType) -> (r: Result<Canonical, VortexError>)
    ensures
        r is Ok <==> has_canonical(dtype@),
        r is Err ==> r->Err_0 == VortexError::Unsupported,
        r is Ok ==> r->Ok_0.array().wf() && r->Ok_0.array().dtype_spec() == dtype@
            && r->Ok_0.array().elements().len() == 0,
    decreases dtype,
{
    match dtype {
        DType::Null => Ok(Canonical::Null(NullArray { len: 0 })),
        DType::Bool(n) => Ok(
            Canonical::Bool(
                BoolArray { values: Vec::new(), validity: Validity::all_valid(*n) },
            ),
        ),
        DType::Primitive(p, n) => Ok(
            Canonical::Primitive(
                PrimitiveArray { ptype: *p, values: Vec::new(), validity: Validity::all_valid(*n) },
            ),
        ),
        DType::Utf8(n) | DType::Binary(n) => Ok(
            Canonical::VarBinView(
                VarBinViewArray {
                    dtype: dtype.clone(),
                    values: Vec::new(),
                    validity: Validity::all_valid(*n),
                },
            ),
        ),
        DType::Struct(s, n) => {
            let mut fields: Vec<ArrayData> = Vec::new();
            let mut f: usize = 0;
            assert(crate::dtype::dtypes_view(s.dtypes@).len() == s.dtypes@.len());
            while f < s.dtypes.len()
                invariant
                    f <= s.dtypes@.len(),
                    fields@.len() == f,
                    forall|j: int| 0 <= j < f ==> has_canonical(#[trigger] s.dtypes@[j]@),
                    forall|j: int| 0 <= j < f ==> (#[trigger] fields@[j]).wf() && fields@[j].dtype_spec()
                        == s.dtypes@[j]@ && fields@[j].elements().len() == 0,
                decreases s.dtypes@.len() - f,
            {
                proof {
                    vstd::std_specs::vec::axiom_vec_index_decreases(s.dtypes, f as int);
                    assert(decreases_to!(*dtype => dtype->Struct_0));
                    assert(decreases_to!(dtype->Struct_0 => (dtype->Struct_0).dtypes));
                    assert(crate::dtype::dtypes_view(s.dtypes@)[f as int] == s.dtypes@[f as int]@);
                }
                match empty_of(&s.dtypes[f]) {
                    Ok(c) => fields.push(c.into_array()),
                    Err(e) => {
                        proof {
                            assert(!has_canonical(crate::dtype::dtypes_view(s.dtypes@)[f as int]));
                        }
                        return Err(e);
                    },
                }
                f += 1;
            }
            proof {
                assert forall|i: int| 0 <= i < crate::dtype::dtypes_view(s.dtypes@).len() implies has_canonical(
                    #[trigger] crate::dtype::dtypes_view(s.dtypes@)[i],
                ) by {
                    assert(has_canonical(s.dtypes@[i]@));
                }
                assert(crate::array::dtypes_of(fields@) =~= crate::dtype::dtypes_view(s.dtypes@));
            }
            assert(crate::dtype::names_view(s.names@).len() == s.names@.len());
            if s.names.len() != s.dtypes.len() {
                return Err(VortexError::Unsupported);
            }
            let r = StructArray {
                dtype: dtype.clone(),
                fields,
                len: 0,
                validity: Validity::all_valid(*n),
            };
            proof {
                assert(crate::dtype::names_view(s.names@).len() == s.names@.len());
                r.lemma_elements();
            }
            Ok(Canonical::Struct(r))
        },
        DType::List(e, n) => {
            match empty_of(e) {
                Ok(c) => {
                    let mut offsets: Vec<usize> = Vec::new();
                    offsets.push(0);
                    let r = ListArray {
                        dtype: dtype.clone(),
                        elements: Box::new(c.into_array()),
                        offsets_ptype: crate::dtype::PType::U64,
                        offsets,
                        validity: Validity::all_valid(*n),
                    };
                    Ok(Canonical::List(r))
                },
                Err(x) => Err(x),
            }
        },
        DType::Extension(e) => {
            match empty_of(&e.storage) {
                Ok(c) => Ok(
                    Canonical::Extension(
                        ExtensionArray { dtype: dtype.clone(), storage: Box::new(c.into_array()) },
                    ),
                ),
                Err(x) => Err(x),
            }
        },
    }
}

/// The one canonical encoding of a dtype: null, boolean and primitive arrays for those
/// dtypes, a view array for UTF-8 and binary, and struct, list and extension arrays for
/// theirs.
pub open spec fn canonical_encoding(dtype: DTypeView) -> EncodingId {
    match dtype {
        DTypeView::Null => EncodingId::Null,
        DTypeView::Bool(_) => EncodingId::Bool,
        DTypeView::Primitive(_, _) => EncodingId::Primitive,
        DTypeView::Utf8(_) | DTypeView::Binary(_) => EncodingId::VarBinView,
        DTypeView::Struct(_, _, _) => EncodingId::Struct,
        DTypeView::List(_, _) => EncodingId::List,
        DTypeView::Extension(_, _, _) => EncodingId::Extension,
    }
}

/// A canonical array is in the one canonical encoding of its dtype.
pub proof fn law_canonical_variant(c: Canonical)
    requires
        c.array().wf(),
    ensures
        c.array().spec_encoding() == canonical_encoding(c.array().dtype_spec()),
{
}

/// Whether an array is an extension array, or chunks of such, at least one.
pub fn check_has_storage(a: &ArrayData) -> (r: bool)
    ensures
        r == has_storage(*a),
    decreases a,
{
    match a {
        ArrayData::Extension(_) => true,
        ArrayData::Chunked(c) => {
            if c.chunks.len() == 0 {
                return false;
            }
            let mut k: usize = 0;
            while k < c.chunks.len()
                invariant
                    *a == ArrayData::Chunked(*c),
                    k <= c.chunks@.len(),
                    forall|j: int| 0 <= j < k ==> has_storage(#[trigger] c.chunks@[j]),
                decreases c.chunks@.len() - k,
            {
                proof {
                    vstd::std_specs::vec::axiom_vec_index_decreases(c.chunks, k as int);
                    assert(decreases_to!(*a => a->Chunked_0));
                    assert(decreases_to!(a->Chunked_0 => (a->Chunked_0).chunks));
                }
                if !check_has_storage(&c.chunks[k]) {
                    return false;
                }
                k += 1;
            }
            true
        },
        _ => false,
    }
}

/// Brings an array to the canonical encoding of its dtype: the same elements, the same
/// dtype. An array that is canonical already comes back as it is. Chunks of struct arrays
/// become one struct array whose fields are chunked; chunks of extension arrays one
/// extension array over their storage, chunked. Any other array is spelled out value by
/// value, which succeeds whenever its elements are values of its dtype: chunks of lists
/// become one list array, a sparse or a constant array of structs a struct array. That is
/// so of every array in which each scalar is a value of its dtype. What none of these can
/// bring to canonical form is refused with `InvalidArgument`.
pub fn into_canonical(array: ArrayData) -> (r: Result<Canonical, VortexError>)
    requires
        array.wf(),
    ensures
        r is Ok <==> canonicalizable(array),
        array.spec_encoding().spec_is_canonical() ==> r is Ok && r->Ok_0.array() == array,
        all_conform(array.dtype_spec(), array.elements()) ==> r is Ok,
        well_typed(array) ==> r is Ok,
        r is Err ==> r->Err_0 == VortexError::InvalidArgument,
        r is Ok ==> r->Ok_0.array().wf() && r->Ok_0.array()@ == array@
            && r->Ok_0.array().spec_encoding() == canonical_encoding(array.dtype_spec()),
{
    proof {
        if well_typed(array) {
            law_well_typed_arrays_conform(array);
        }
    }
    match array {
        ArrayData::Null(a) => Ok(Canonical::Null(a)),
        ArrayData::Bool(a) => Ok(Canonical::Bool(a)),
        ArrayData::Primitive(a) => Ok(Canonical::Primitive(a)),
        ArrayData::Struct(a) => Ok(Canonical::Struct(a)),
        ArrayData::List(a) => Ok(Canonical::List(a)),
        ArrayData::VarBinView(a) => Ok(Canonical::VarBinView(a)),
        ArrayData::Extension(a) => Ok(Canonical::Extension(a)),
        other => {
            let dtype = other.dtype();
            match &other {
                ArrayData::Chunked(c) => {
                    match &dtype {
                        DType::Struct(fields, _) => {
                            assert(crate::dtype::names_view(fields.names@).len() == fields.names@.len());
                            assert(crate::dtype::dtypes_view(fields.dtypes@).len() == fields.dtypes@.len());
                            if fields.names.len() == fields.dtypes.len() && check_struct_like(&other) {
                                return Ok(Canonical::Struct(swizzle(&other)));
                            }
                        },
                        DType::Extension(_) => {
                            if check_has_storage(&other) {
                                let storage = c.storage_data();
                                return Ok(
                                    Canonical::Extension(
                                        ExtensionArray { dtype, storage: Box::new(storage) },
                                    ),
                                );
                            }
                        },
                        _ => {},
                    }
                },
                _ => {},
            }
            let values = values_of(&other);
            from_values(&dtype, &values)
        },
    }
}

} // verus!
