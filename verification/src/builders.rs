//! Canonical arrays from values: for each dtype, the array in the dtype's canonical encoding
//! that holds given values.

use vstd::prelude::*;

use crate::array::{
    ArrayData, BoolArray, ExtensionArray, ListArray, NullArray, PrimitiveArray, StructArray,
    VarBinViewArray,
};
use crate::array::{concat_elements, dtypes_of, non_decreasing};
use crate::canonical::{admits, has_canonical, Canonical};
use crate::compute::scalar_at::value_at;
use crate::dtype::{dtypes_view, names_view, DType, DTypeView, Nullability, PType};
use crate::error::VortexError;
use crate::scalar::{values_view, Datum, InnerScalarValue, ScalarValue};
use crate::validity::Validity;

verus! {

/// Whether a value is one of a dtype: for a flat dtype a value that it admits; for a struct
/// a row with one value of each field's dtype; for a list, values of the element dtype; for
/// an extension a value of its storage; and null where the dtype is nullable.
pub open spec fn conforms(dtype: DTypeView, d: Datum) -> bool
    decreases dtype,
{
    match dtype {
        DTypeView::Struct(_, dtypes, n) => (d is Null && n == Nullability::Nullable) || (d is List
            && d->List_0.len() == dtypes.len() && forall|f: int|
            0 <= f < dtypes.len() ==> conforms(#[trigger] dtypes[f], d->List_0[f])),
        DTypeView::List(e, n) => (d is Null && n == Nullability::Nullable) || (d is List
            && forall|j: int| 0 <= j < d->List_0.len() ==> conforms(*e, #[trigger] d->List_0[j])),
        DTypeView::Extension(_, storage, _) => conforms(*storage, d),
        _ => admits(dtype, d),
    }
}

/// Whether a dtype has a canonical array of the elements: the dtype can have arrays, and
/// each element is a value of it.
pub open spec fn all_conform(dtype: DTypeView, elements: Seq<Datum>) -> bool {
    has_canonical(dtype) && forall|i: int|
        0 <= i < elements.len() ==> conforms(dtype, #[trigger] elements[i])
}

/// The value that stands under a null: false, zero, no bytes, no items, and for a struct
/// one such value per field.
pub open spec fn default_datum(dtype: DTypeView) -> Datum
    decreases dtype,
{
    match dtype {
        DTypeView::Null => Datum::Null,
        DTypeView::Bool(_) => Datum::Bool(false),
        DTypeView::Primitive(_, _) => Datum::Primitive(0),
        DTypeView::Utf8(_) | DTypeView::Binary(_) => Datum::Bytes(Seq::empty()),
        DTypeView::Struct(_, dtypes, _) => Datum::List(
            Seq::new(
                dtypes.len(),
                |f: int|
                    if 0 <= f < dtypes.len() {
                        default_datum(dtypes[f])
                    } else {
                        Datum::Null
                    },
            ),
        ),
        DTypeView::List(_, _) => Datum::List(Seq::empty()),
        DTypeView::Extension(_, storage, _) => default_datum(*storage),
    }
}

/// The value that stands under a null is a value of the dtype.
pub proof fn lemma_default_conforms(dtype: DTypeView)
    ensures
        conforms(dtype, default_datum(dtype)),
    decreases dtype,
{
    match dtype {
        DTypeView::Struct(_, dtypes, _) => {
            let d = default_datum(dtype);
            assert forall|f: int| 0 <= f < dtypes.len() implies conforms(
                #[trigger] dtypes[f],
                d->List_0[f],
            ) by {
                lemma_default_conforms(dtypes[f]);
            }
        },
        DTypeView::Extension(_, storage, _) => {
            lemma_default_conforms(*storage);
        },
        _ => {},
    }
}

/// The value that stands under a null.
#[verifier::loop_isolation(false)]
pub fn default_value(dtype: &DType) -> (r: ScalarValue)
    ensures
        r@ == default_datum(dtype@),
    decreases dtype,
{
    match dtype {
        DType::Null => ScalarValue::null(),
        DType::Bool(_) => ScalarValue::bool(false),
        DType::Primitive(_, _) => ScalarValue::primitive(0),
        DType::Utf8(_) | DType::Binary(_) => {
            let r = ScalarValue::buffer(Vec::new());
            assert(r@->Bytes_0 =~= Seq::<u8>::empty());
            r
        },
        DType::Struct(s, _) => {
            let mut values: Vec<ScalarValue> = Vec::new();
            let mut f: usize = 0;
            assert(dtypes_view(s.dtypes@).len() == s.dtypes@.len());
            while f < s.dtypes.len()
                invariant
                    f <= s.dtypes@.len(),
                    values@.len() == f,
                    forall|j: int| 0 <= j < f ==> (#[trigger] values@[j]).model() == default_datum(s.dtypes@[j]@),
                decreases s.dtypes@.len() - f,
            {
                proof {
                    vstd::std_specs::vec::axiom_vec_index_decreases(s.dtypes, f as int);
                    assert(decreases_to!(*dtype => dtype->Struct_0));
                    assert(decreases_to!(dtype->Struct_0 => (dtype->Struct_0).dtypes));
                }
                let v = default_value(&s.dtypes[f]);
                values.push(v);
                f += 1;
            }
            let r = ScalarValue::list(values);
            proof {
                assert forall|j: int| 0 <= j < s.dtypes@.len() implies dtypes_view(s.dtypes@)[j]
                    == s.dtypes@[j]@ by {}
                assert(r@->List_0 =~= default_datum(dtype@)->List_0);
            }
            r
        },
        DType::List(_, _) => {
            let r = ScalarValue::list(Vec::new());
            assert(r@->List_0 =~= Seq::<Datum>::empty());
            r
        },
        DType::Extension(e) => default_value(&e.storage),
    }
}

/// Whether a value is a list, one of `width` items where a width is given.
pub open spec fn is_row(v: ScalarValue, width: Option<usize>) -> bool {
    v.0 is List && (width is Some ==> v.0->List_0.values@.len() == width->Some_0)
}

/// Item `f` of a value that is a list.
pub open spec fn cell(v: ScalarValue, f: int) -> Datum {
    v.0->List_0.values@[f].model()
}

/// One flag per value: whether it is a list and no null. A value that is neither, a null
/// where none may stand, and a list of another width than the one given are refused.
fn row_flags(values: &Vec<ScalarValue>, nullable: bool, width: Option<usize>) -> (r: Option<
    Vec<bool>,
>)
    ensures
        r is Some <==> forall|i: int|
            0 <= i < values@.len() ==> (nullable && (#[trigger] values@[i]).0 is Null) || is_row(
                values@[i],
                width,
            ),
        r is Some ==> r->Some_0@.len() == values@.len() && forall|i: int|
            0 <= i < values@.len() ==> (#[trigger] r->Some_0@[i]) == values@[i].0 is List,
{
    let mut flags: Vec<bool> = Vec::new();
    let mut i: usize = 0;
    while i < values.len()
        invariant
            i <= values@.len(),
            flags@.len() == i,
            forall|j: int|
                0 <= j < i ==> (nullable && (#[trigger] values@[j]).0 is Null) || is_row(
                    values@[j],
                    width,
                ),
            forall|j: int| 0 <= j < i ==> (#[trigger] flags@[j]) == values@[j].0 is List,
        decreases values@.len() - i,
    {
        match &values[i].0 {
            InnerScalarValue::Null => {
                if !nullable {
                    assert(!is_row(values@[i as int], width));
                    return None;
                }
                flags.push(false);
            },
            InnerScalarValue::List(l) => {
                match width {
                    Some(w) => {
                        if l.values.len() != w {
                            assert(!is_row(values@[i as int], width));
                            return None;
                        }
                    },
                    None => {},
                }
                flags.push(true);
            },
            _ => {
                assert(!is_row(values@[i as int], width));
                return None;
            },
        }
        i += 1;
    }
    Some(flags)
}

/// Item `f` of each value that is a list, and the given value for each that is none.
fn column_of(values: &Vec<ScalarValue>, f: usize, absent: &ScalarValue) -> (r: Vec<ScalarValue>)
    requires
        forall|i: int|
            0 <= i < values@.len() && (#[trigger] values@[i]).0 is List ==> f
                < values@[i].0->List_0.values@.len(),
    ensures
        r@.len() == values@.len(),
        forall|i: int|
            0 <= i < values@.len() ==> (#[trigger] r@[i]).model() == (if values@[i].0 is List {
                cell(values@[i], f as int)
            } else {
                absent.model()
            }),
{
    let mut column: Vec<ScalarValue> = Vec::new();
    let mut i: usize = 0;
    while i < values.len()
        invariant
            i <= values@.len(),
            column@.len() == i,
            forall|j: int|
                0 <= j < values@.len() && (#[trigger] values@[j]).0 is List ==> f
                    < values@[j].0->List_0.values@.len(),
            forall|j: int|
                0 <= j < i ==> (#[trigger] column@[j]).model() == (if values@[j].0 is List {
                    cell(values@[j], f as int)
                } else {
                    absent.model()
                }),
        decreases values@.len() - i,
    {
        let v = match &values[i].0 {
            InnerScalarValue::List(l) => l.values[f].clone(),
            _ => absent.clone(),
        };
        column.push(v);
        i += 1;
    }
    column
}

/// Appends copies of the values.
fn append_values(items: &mut Vec<ScalarValue>, more: &Vec<ScalarValue>)
    ensures
        values_view(final(items)@) == values_view(old(items)@) + values_view(more@),
        final(items)@.len() == old(items)@.len() + more@.len(),
{
    let ghost before = items@;
    let mut k: usize = 0;
    while k < more.len()
        invariant
            k <= more@.len(),
            items@.len() == before.len() + k,
            forall|j: int| 0 <= j < before.len() ==> (#[trigger] items@[j]).model() == before[j].model(),
            forall|p: int|
                before.len() <= p < before.len() + k ==> (#[trigger] items@[p]).model()
                    == more@[p - before.len()].model(),
        decreases more@.len() - k,
    {
        let v = more[k].clone();
        items.push(v);
        k += 1;
    }
    assert(values_view(items@) =~= values_view(before) + values_view(more@));
}

/// The values of a flat dtype in the dtype's canonical encoding.
#[verifier::rlimit(40)]
fn flat_from_values(dtype: &DType, values: &Vec<ScalarValue>) -> (r: Result<
    Canonical,
    VortexError,
>)
    requires
        crate::canonical::is_flat(dtype@),
    ensures
        r is Ok <==> all_conform(dtype@, values_view(values@)),
        r is Err ==> r->Err_0 == VortexError::InvalidArgument,
        r is Ok ==> r->Ok_0.array().wf() && r->Ok_0.array().dtype_spec() == dtype@
            && r->Ok_0.array().elements() == values_view(values@),
{
    let n = values.len();
    let nullable = dtype.is_nullable();
    let ghost e = values_view(values@);
    let mut valid: Vec<bool> = Vec::new();
    let mut bools: Vec<bool> = Vec::new();
    let mut prims: Vec<i128> = Vec::new();
    let mut strings: Vec<Vec<u8>> = Vec::new();
    let mut i: usize = 0;
    while i < n
        invariant
            crate::canonical::is_flat(dtype@),
            nullable == dtype@.is_nullable(),
            e == values_view(values@),
            n == e.len(),
            n == values@.len(),
            i <= n,
            valid@.len() == i,
            forall|j: int| 0 <= j < i ==> admits(dtype@, #[trigger] e[j]),
            forall|j: int| 0 <= j < i ==> (#[trigger] valid@[j]) == !(e[j] is Null),
            dtype@ is Bool ==> bools@.len() == i && forall|j: int| 0 <= j < i && valid@[j] ==> Datum::Bool(#[trigger] bools@[j]) == e[j],
            dtype@ is Primitive ==> prims@.len() == i && forall|j: int| 0 <= j < i ==> dtype@->Primitive_0.holds(#[trigger] prims@[j] as int)
                && (valid@[j] ==> Datum::Primitive(prims@[j] as int) == e[j]),
            dtype@ is Utf8 || dtype@ is Binary ==> strings@.len() == i && forall|j: int| 0 <= j < i && valid@[j] ==> Datum::Bytes((#[trigger] strings@[j])@) == e[j],
        decreases n - i,
    {
        assert(e[i as int] == values@[i as int].model());
        match &values[i].0 {
            InnerScalarValue::Null => {
                if !nullable {
                    assert(!conforms(dtype@, e[i as int]));
                    return Err(VortexError::InvalidArgument);
                }
                valid.push(false);
                match dtype {
                    DType::Bool(_) => bools.push(false),
                    DType::Primitive(_, _) => prims.push(0),
                    DType::Utf8(_) | DType::Binary(_) => strings.push(Vec::new()),
                    _ => {},
                }
            },
            InnerScalarValue::Bool(x) => {
                match dtype {
                    DType::Bool(_) => bools.push(*x),
                    _ => {
                        assert(!conforms(dtype@, e[i as int]));
                        return Err(VortexError::InvalidArgument);
                    },
                }
                valid.push(true);
            },
            InnerScalarValue::Primitive(x) => {
                match dtype {
                    DType::Primitive(p, _) => {
                        if !p.in_range(*x) {
                            assert(!conforms(dtype@, e[i as int]));
                            return Err(VortexError::InvalidArgument);
                        }
                        prims.push(*x);
                    },
                    _ => {
                        assert(!conforms(dtype@, e[i as int]));
                        return Err(VortexError::InvalidArgument);
                    },
                }
                valid.push(true);
            },
            InnerScalarValue::Buffer(x) => {
                match dtype {
                    DType::Utf8(_) | DType::Binary(_) => strings.push(x.clone()),
                    _ => {
                        assert(!conforms(dtype@, e[i as int]));
                        return Err(VortexError::InvalidArgument);
                    },
                }
                valid.push(true);
            },
            InnerScalarValue::List(_) => {
                assert(!conforms(dtype@, e[i as int]));
                return Err(VortexError::InvalidArgument);
            },
        }
        i += 1;
    }
    let validity = if nullable {
        Validity::from_bools(valid)
    } else {
        Validity::NonNullable
    };
    proof {
        assert forall|j: int| 0 <= j < n implies validity.valid_at(j) == !(e[j] is Null) by {
            assert(admits(dtype@, e[j]));
        }
        assert forall|j: int| 0 <= j < n implies conforms(dtype@, #[trigger] e[j]) by {
            assert(admits(dtype@, e[j]));
        }
    }
    match dtype {
        DType::Null => {
            let r = NullArray { len: n };
            proof {
                assert forall|j: int| 0 <= j < n implies e[j] == Datum::Null by {
                    assert(admits(dtype@, e[j]));
                }
                assert(r.elements() =~= e);
            }
            Ok(Canonical::Null(r))
        },
        DType::Bool(_) => {
            let r = BoolArray { values: bools, validity };
            proof {
                assert forall|j: int| 0 <= j < n implies r.elements()[j] == e[j] by {
                    assert(admits(dtype@, e[j]));
                    assert(valid@[j] == !(e[j] is Null));
                }
                assert(r.elements() =~= e);
            }
            Ok(Canonical::Bool(r))
        },
        DType::Primitive(p, _) => {
            let r = PrimitiveArray { ptype: *p, values: prims, validity };
            proof {
                assert forall|j: int| 0 <= j < n implies r.elements()[j] == e[j] by {
                    assert(admits(dtype@, e[j]));
                    assert(valid@[j] == !(e[j] is Null));
                    assert(dtype@->Primitive_0.holds(prims@[j] as int));
                }
                assert(r.elements() =~= e);
                assert forall|j: int| 0 <= j < r.values@.len() implies r.ptype.holds(#[trigger] r.values@[j] as int) by {}
            }
            Ok(Canonical::Primitive(r))
        },
        DType::Utf8(_) | DType::Binary(_) => {
            let r = VarBinViewArray { dtype: dtype.clone(), values: strings, validity };
            proof {
                assert forall|j: int| 0 <= j < n implies r.elements()[j] == e[j] by {
                    assert(admits(dtype@, e[j]));
                    assert(valid@[j] == !(e[j] is Null));
                }
                assert(r.elements() =~= e);
            }
            Ok(Canonical::VarBinView(r))
        },
        _ => Err(VortexError::InvalidArgument),
    }
}

/// The values in the canonical encoding of the dtype: a struct field by field, a list as
/// the items of all lists laid end to end, an extension as its storage. Refused with
/// `InvalidArgument` where a value is none of the dtype, or the dtype can have no array.
#[verifier::loop_isolation(false)]
#[verifier::rlimit(60)]
pub fn from_values(dtype: &DType, values: &Vec<ScalarValue>) -> (r: Result<Canonical, VortexError>)
    ensures
        r is Ok <==> all_conform(dtype@, values_view(values@)),
        r is Err ==> r->Err_0 == VortexError::InvalidArgument,
        r is Ok ==> r->Ok_0.array().wf() && r->Ok_0.array().dtype_spec() == dtype@
            && r->Ok_0.array().elements() == values_view(values@),
    decreases dtype,
{
    let ghost e = values_view(values@);
    match dtype {
        DType::Struct(s, _) => {
            let nullable = dtype.is_nullable();
            let nfields = s.dtypes.len();
            assert(names_view(s.names@).len() == s.names@.len());
            assert(dtypes_view(s.dtypes@).len() == s.dtypes@.len());
            if s.names.len() != nfields {
                return Err(VortexError::InvalidArgument);
            }
            let flags = match row_flags(values, nullable, Some(nfields)) {
                Some(flags) => flags,
                None => {
                    proof {
                        let i = choose|i: int|
                            0 <= i < values@.len() && !((nullable && (#[trigger] values@[i]).0 is Null)
                                || is_row(values@[i], Some(nfields)));
                        assert(e[i] == values@[i].model());
                        assert(!conforms(dtype@, e[i]));
                    }
                    return Err(VortexError::InvalidArgument);
                },
            };
            let mut fields: Vec<ArrayData> = Vec::new();
            let mut f: usize = 0;
            while f < nfields
                invariant
                    f <= nfields,
                    fields@.len() == f,
                    forall|j: int| 0 <= j < f ==> has_canonical(#[trigger] s.dtypes@[j]@),
                    forall|j: int|
                        0 <= j < f ==> (#[trigger] fields@[j]).wf() && fields@[j].dtype_spec()
                            == s.dtypes@[j]@ && fields@[j].elements().len() == values@.len(),
                    forall|j: int, i: int|
                        0 <= j < f && 0 <= i < values@.len() && values@[i].0 is List ==> (
                        #[trigger] fields@[j].elements()[i]) == cell(values@[i], j) && conforms(
                            s.dtypes@[j]@,
                            cell(values@[i], j),
                        ),
                decreases nfields - f,
            {
                proof {
                    vstd::std_specs::vec::axiom_vec_index_decreases(s.dtypes, f as int);
                    assert(decreases_to!(*dtype => dtype->Struct_0));
                    assert(decreases_to!(dtype->Struct_0 => (dtype->Struct_0).dtypes));
                    assert(dtypes_view(s.dtypes@)[f as int] == s.dtypes@[f as int]@);
                }
                let absent = default_value(&s.dtypes[f]);
                let column = column_of(values, f, &absent);
                let ghost col = values_view(column@);
                match from_values(&s.dtypes[f], &column) {
                    Ok(c) => {
                        proof {
                            assert forall|i: int|
                                0 <= i < values@.len() && values@[i].0 is List implies (
                            #[trigger] c.array().elements()[i]) == cell(values@[i], f as int)
                                && conforms(s.dtypes@[f as int]@, cell(values@[i], f as int)) by {
                                assert(col[i] == column@[i].model());
                                assert(conforms(s.dtypes@[f as int]@, col[i]));
                            }
                        }
                        fields.push(c.into_array());
                    },
                    Err(x) => {
                        proof {
                            let ft = s.dtypes@[f as int]@;
                            if has_canonical(ft) {
                                let i = choose|i: int| 0 <= i < col.len() && !conforms(ft, #[trigger] col[i]);
                                assert(col[i] == column@[i].model());
                                lemma_default_conforms(ft);
                                assert(values@[i].0 is List);
                                assert(e[i] == values@[i].model());
                                assert(e[i]->List_0[f as int] == cell(values@[i], f as int));
                                assert(!conforms(dtype@, e[i]));
                            } else {
                                assert(!has_canonical(dtypes_view(s.dtypes@)[f as int]));
                            }
                        }
                        return Err(x);
                    },
                }
                f += 1;
            }
            let validity = if nullable {
                Validity::from_bools(flags)
            } else {
                Validity::NonNullable
            };
            let r = StructArray { dtype: dtype.clone(), fields, len: values.len(), validity };
            proof {
                assert forall|i: int| 0 <= i < dtypes_view(s.dtypes@).len() implies has_canonical(
                    #[trigger] dtypes_view(s.dtypes@)[i],
                ) by {
                    assert(has_canonical(s.dtypes@[i]@));
                }
                assert(dtypes_of(r.fields@) =~= dtypes_view(s.dtypes@));
                assert forall|i: int| 0 <= i < values@.len() implies r.elements()[i] == #[trigger] e[i]
                    && conforms(dtype@, e[i]) by {
                    assert(e[i] == values@[i].model());
                    assert((nullable && values@[i].0 is Null) || is_row(values@[i], Some(nfields)));
                    if values@[i].0 is List {
                        let l = values@[i].0->List_0;
                        assert(r.validity.valid_at(i));
                        assert(crate::array::struct_row(r.fields@, i) =~= values_view(l.values@)) by {
                            assert forall|j: int| 0 <= j < nfields implies crate::array::struct_row(
                                r.fields@,
                                i,
                            )[j] == values_view(l.values@)[j] by {
                                assert(r.fields@[j].elements()[i] == cell(values@[i], j));
                            }
                        }
                        assert forall|j: int| 0 <= j < dtypes_view(s.dtypes@).len() implies conforms(
                            #[trigger] dtypes_view(s.dtypes@)[j],
                            e[i]->List_0[j],
                        ) by {
                            assert(r.fields@[j].elements()[i] == cell(values@[i], j));
                            assert(dtypes_view(s.dtypes@)[j] == s.dtypes@[j]@);
                        }
                    } else {
                        assert(!r.validity.valid_at(i));
                    }
                }
                assert(r.elements() =~= e);
                r.lemma_elements();
            }
            Ok(Canonical::Struct(r))
        },
        DType::List(inner, _) => {
            let nullable = dtype.is_nullable();
            let flags = match row_flags(values, nullable, None) {
                Some(flags) => flags,
                None => {
                    proof {
                        let i = choose|i: int|
                            0 <= i < values@.len() && !((nullable && (#[trigger] values@[i]).0 is Null)
                                || is_row(values@[i], None));
                        assert(e[i] == values@[i].model());
                        assert(!conforms(dtype@, e[i]));
                    }
                    return Err(VortexError::InvalidArgument);
                },
            };
            let mut items: Vec<ScalarValue> = Vec::new();
            let mut offsets: Vec<usize> = Vec::new();
            offsets.push(0);
            let mut i: usize = 0;
            while i < values.len()
                invariant
                    i <= values@.len(),
                    offsets@.len() == i + 1,
                    offsets@[0] == 0,
                    offsets@[i as int] == items@.len(),
                    forall|j: int| 0 <= j < i ==> (#[trigger] offsets@[j]) <= offsets@[j + 1],
                    forall|j: int|
                        0 <= j < i && (#[trigger] values@[j]).0 is List ==> values_view(items@).subrange(
                            offsets@[j] as int,
                            offsets@[j + 1] as int,
                        ) == values_view(values@[j].0->List_0.values@),
                    (forall|j: int| 0 <= j < i ==> conforms(dtype@, #[trigger] e[j])) ==> (forall|p: int|
                        0 <= p < items@.len() ==> conforms(*dtype@->List_0, #[trigger] values_view(items@)[p])),
                decreases values@.len() - i,
            {
                let ghost before = values_view(items@);
                let ghost old_offsets = offsets@;
                match &values[i].0 {
                    InnerScalarValue::List(l) => {
                        append_values(&mut items, &l.values);
                        proof {
                            let more = values_view(l.values@);
                            assert(values_view(items@) == before + more);
                            assert((before + more).subrange(before.len() as int, (before + more).len() as int) =~= more);
                            assert(e[i as int] == values@[i as int].model());
                            if forall|j: int| 0 <= j < i + 1 ==> conforms(dtype@, #[trigger] e[j]) {
                                assert(conforms(dtype@, e[i as int]));
                                assert forall|p: int| 0 <= p < items@.len() implies conforms(
                                    *dtype@->List_0,
                                    #[trigger] values_view(items@)[p],
                                ) by {
                                    if p < before.len() {
                                        assert(values_view(items@)[p] == before[p]);
                                    } else {
                                        assert(values_view(items@)[p] == more[p - before.len()]);
                                        assert(e[i as int]->List_0[p - before.len()] == more[p - before.len()]);
                                    }
                                }
                            }
                        }
                    },
                    _ => {},
                }
                offsets.push(items.len());
                proof {
                    let now = values_view(items@);
                    assert forall|j: int| 0 <= j < i + 1 && (#[trigger] values@[j]).0 is List implies now.subrange(
                        offsets@[j] as int,
                        offsets@[j + 1] as int,
                    ) == values_view(values@[j].0->List_0.values@) by {
                        if j < i {
                            lemma_offsets_bounded(old_offsets, j + 1);
                            lemma_offsets_bounded(old_offsets, j);
                            assert(offsets@[j] == old_offsets[j]);
                            assert(offsets@[j + 1] == old_offsets[j + 1]);
                            assert(now.subrange(offsets@[j] as int, offsets@[j + 1] as int) =~= before.subrange(
                                offsets@[j] as int,
                                offsets@[j + 1] as int,
                            ));
                        }
                    }
                    assert forall|j: int| 0 <= j < i + 1 implies (#[trigger] offsets@[j]) <= offsets@[j + 1] by {
                        if j < i {
                            assert(offsets@[j] == old_offsets[j]);
                            assert(offsets@[j + 1] == old_offsets[j + 1]);
                        }
                    }
                }
                i += 1;
            }
            let ghost iv = values_view(items@);
            match from_values(inner, &items) {
                Ok(c) => {
                    let validity = if nullable {
                        Validity::from_bools(flags)
                    } else {
                        Validity::NonNullable
                    };
                    let r = ListArray {
                        dtype: dtype.clone(),
                        elements: Box::new(c.into_array()),
                        offsets_ptype: PType::U64,
                        offsets,
                        validity,
                    };
                    proof {
                        assert(non_decreasing(r.offsets@)) by {
                            assert forall|a: int, b: int| 0 <= a <= b < r.offsets@.len() implies r.offsets@[a]
                                <= r.offsets@[b] by {
                                lemma_steps_ordered(r.offsets@, a, b);
                            }
                        }
                        assert forall|j: int| 0 <= j < values@.len() implies r.elements()[j] == #[trigger] e[j]
                            && conforms(dtype@, e[j]) by {
                            assert(e[j] == values@[j].model());
                            assert((nullable && values@[j].0 is Null) || is_row(values@[j], None));
                            if values@[j].0 is List {
                                assert(r.validity.valid_at(j));
                                lemma_steps_ordered(r.offsets@, j + 1, values@.len() as int);
                                lemma_steps_ordered(r.offsets@, j, j + 1);
                                let part = iv.subrange(r.offsets@[j] as int, r.offsets@[j + 1] as int);
                                assert(part == values_view(values@[j].0->List_0.values@));
                                assert forall|k: int| 0 <= k < e[j]->List_0.len() implies conforms(
                                    *dtype@->List_0,
                                    #[trigger] e[j]->List_0[k],
                                ) by {
                                    assert(part[k] == iv[r.offsets@[j] + k]);
                                }
                            } else {
                                assert(!r.validity.valid_at(j));
                            }
                        }
                        assert(r.elements() =~= e);
                    }
                    Ok(Canonical::List(r))
                },
                Err(x) => Err(x),
            }
        },
        DType::Extension(ext) => {
            match from_values(&ext.storage, values) {
                Ok(c) => Ok(
                    Canonical::Extension(
                        ExtensionArray { dtype: dtype.clone(), storage: Box::new(c.into_array()) },
                    ),
                ),
                Err(x) => Err(x),
            }
        },
        _ => flat_from_values(dtype, values),
    }
}

/// Offsets that never step down never lie above a later one.
pub proof fn lemma_steps_ordered(offsets: Seq<usize>, a: int, b: int)
    requires
        0 <= a <= b < offsets.len(),
        forall|j: int| 0 <= j < offsets.len() - 1 ==> (#[trigger] offsets[j]) <= offsets[j + 1],
    ensures
        offsets[a] <= offsets[b],
    decreases b - a,
{
    if a < b {
        lemma_steps_ordered(offsets, a, b - 1);
    }
}

/// Offsets that never step down never lie above the last.
proof fn lemma_offsets_bounded(offsets: Seq<usize>, a: int)
    requires
        0 <= a < offsets.len(),
        forall|j: int| 0 <= j < offsets.len() - 1 ==> (#[trigger] offsets[j]) <= offsets[j + 1],
    ensures
        offsets[a] <= offsets[offsets.len() - 1],
{
    lemma_steps_ordered(offsets, a, offsets.len() - 1);
}

/// The elements of an array, one value each.
pub fn values_of(array: &ArrayData) -> (r: Vec<ScalarValue>)
    requires
        array.wf(),
    ensures
        values_view(r@) == array.elements(),
{
    let n = array.len();
    let mut values: Vec<ScalarValue> = Vec::new();
    let mut i: usize = 0;
    while i < n
        invariant
            array.wf(),
            n == array.elements().len(),
            i <= n,
            values@.len() == i,
            forall|j: int| 0 <= j < i ==> (#[trigger] values@[j]).model() == array.elements()[j],
        decreases n - i,
    {
        let v = value_at(array, i);
        values.push(v);
        i += 1;
    }
    assert(values_view(values@) =~= array.elements());
    values
}

/// Whether every scalar that an array holds in place of elements is a value of its dtype:
/// the scalar of a constant array, the fill of a sparse array; and whether the dtype given
/// to chunks can have arrays.
pub open spec fn well_typed(a: ArrayData) -> bool
    decreases a,
{
    match a {
        ArrayData::Struct(s) => forall|f: int|
            0 <= f < s.fields@.len() ==> well_typed(#[trigger] s.fields@[f]),
        ArrayData::List(l) => well_typed(*l.elements),
        ArrayData::Extension(e) => well_typed(*e.storage),
        ArrayData::Chunked(c) => has_canonical(c.dtype@) && forall|k: int|
            0 <= k < c.chunks@.len() ==> well_typed(#[trigger] c.chunks@[k]),
        ArrayData::Sparse(s) => well_typed(*s.values) && conforms(s.values.dtype_spec(), s.fill.value@),
        ArrayData::Constant(c) => has_canonical(c.scalar.dtype@) && conforms(
            c.scalar.dtype@,
            c.scalar.value@,
        ),
        _ => true,
    }
}

/// The elements of well-formed chunks of one dtype, each of whose elements are values of
/// the dtype, are values of the dtype when laid end to end.
pub proof fn lemma_chunks_conform(chunks: Seq<ArrayData>, dtype: DTypeView, n: int)
    requires
        0 <= n <= chunks.len(),
        forall|k: int, i: int|
            0 <= k < n && 0 <= i < chunks[k].elements().len() ==> conforms(
                dtype,
                #[trigger] chunks[k].elements()[i],
            ),
    ensures
        forall|i: int|
            0 <= i < concat_elements(chunks, n).len() ==> conforms(
                dtype,
                #[trigger] concat_elements(chunks, n)[i],
            ),
    decreases n,
{
    if n > 0 {
        lemma_chunks_conform(chunks, dtype, n - 1);
        let before = concat_elements(chunks, n - 1);
        assert forall|i: int| 0 <= i < concat_elements(chunks, n).len() implies conforms(
            dtype,
            #[trigger] concat_elements(chunks, n)[i],
        ) by {
            if i >= before.len() {
                assert(concat_elements(chunks, n)[i] == chunks[n - 1].elements()[i - before.len()]);
            } else {
                assert(concat_elements(chunks, n)[i] == before[i]);
            }
        }
    }
}

/// The elements of a well-formed array are values of its dtype, and the dtype can have
/// arrays, if the scalars that the array holds are values of their dtypes. So every such
/// array can be brought to canonical form.
pub proof fn law_well_typed_arrays_conform(a: ArrayData)
    requires
        a.wf(),
        well_typed(a),
    ensures
        all_conform(a.dtype_spec(), a.elements()),
    decreases a,
{
    let dtype = a.dtype_spec();
    let e = a.elements();
    match a {
        ArrayData::Struct(s) => {
            assert forall|f: int| 0 <= f < s.fields@.len() implies all_conform(
                (#[trigger] s.fields@[f]).dtype_spec(),
                s.fields@[f].elements(),
            ) by {
                law_well_typed_arrays_conform(s.fields@[f]);
            }
            let dtypes = dtype->Struct_1;
            assert(dtypes == dtypes_of(s.fields@));
            assert forall|f: int| 0 <= f < dtypes.len() implies has_canonical(#[trigger] dtypes[f]) by {
                assert(all_conform(s.fields@[f].dtype_spec(), s.fields@[f].elements()));
            }
            assert forall|i: int| 0 <= i < e.len() implies conforms(dtype, #[trigger] e[i]) by {
                if s.validity.valid_at(i) {
                    let row = crate::array::struct_row(s.fields@, i);
                    assert(e[i] == Datum::List(row));
                    assert forall|f: int| 0 <= f < dtypes.len() implies conforms(
                        #[trigger] dtypes[f],
                        row[f],
                    ) by {
                        assert(all_conform(s.fields@[f].dtype_spec(), s.fields@[f].elements()));
                        assert(s.fields@[f].elements().len() == s.len);
                        assert(row[f] == s.fields@[f].elements()[i]);
                    }
                }
            }
        },
        ArrayData::List(l) => {
            law_well_typed_arrays_conform(*l.elements);
            let child = l.elements.elements();
            assert forall|i: int| 0 <= i < e.len() implies conforms(dtype, #[trigger] e[i]) by {
                if l.validity.valid_at(i) {
                    let lo = l.offsets@[i] as int;
                    let hi = l.offsets@[i + 1] as int;
                    assert(l.offsets@[i] <= l.offsets@[i + 1]);
                    assert(l.offsets@[i + 1] <= l.offsets@[l.offsets@.len() - 1]);
                    assert(e[i] == Datum::List(child.subrange(lo, hi)));
                    assert forall|j: int| 0 <= j < hi - lo implies conforms(
                        *dtype->List_0,
                        #[trigger] child.subrange(lo, hi)[j],
                    ) by {
                        assert(child.subrange(lo, hi)[j] == child[lo + j]);
                    }
                }
            }
        },
        ArrayData::Extension(x) => {
            law_well_typed_arrays_conform(*x.storage);
        },
        ArrayData::Chunked(c) => {
            assert forall|k: int, i: int|
                0 <= k < c.chunks@.len() && 0 <= i < c.chunks@[k].elements().len() implies conforms(
                dtype,
                #[trigger] c.chunks@[k].elements()[i],
            ) by {
                law_well_typed_arrays_conform(c.chunks@[k]);
            }
            lemma_chunks_conform(c.chunks@, dtype, c.chunks@.len() as int);
        },
        ArrayData::Sparse(p) => {
            law_well_typed_arrays_conform(*p.values);
            assert forall|i: int| 0 <= i < e.len() implies conforms(dtype, #[trigger] e[i]) by {
                let at = crate::array::position_of(p.indices@, i + p.indices_offset);
                if at >= 0 {
                    assert(e[i] == p.values.elements()[at]);
                }
            }
        },
        _ => {},
    }
}

} // verus!
