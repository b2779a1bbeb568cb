//! Single values paired with their logical type.

use vstd::prelude::*;

use crate::dtype::{bytes_eq, DType, DTypeView, Nullability};
use crate::error::VortexError;

verus! {

/// One logical element, as a mathematical value. Primitive values are carried as integers
/// (floats by their bit pattern); a struct row is the list of its fields' values.
pub enum Datum {
    Null,
    Bool(bool),
    Primitive(int),
    Bytes(Seq<u8>),
    List(Seq<Datum>),
}

/// An ordered list of values: the content of a list element or of a struct row.
#[derive(Debug)]
pub struct ListValue {
    pub values: Vec<ScalarValue>,
}

/// The kinds of value.
#[derive(Debug)]
pub enum InnerScalarValue {
    Null,
    Bool(bool),
    Primitive(i128),
    Buffer(Vec<u8>),
    List(ListValue),
}

/// A value without its type.
#[derive(Debug)]
pub struct ScalarValue(pub InnerScalarValue);

/// The values of a sequence of scalar values.
pub open spec fn values_view(values: Seq<ScalarValue>) -> Seq<Datum>
    decreases values,
{
    Seq::new(
        values.len(),
        |i: int|
            if 0 <= i < values.len() {
                values[i].model()
            } else {
                Datum::Null
            },
    )
}

impl ScalarValue {
    /// The value as a mathematical value.
    pub open spec fn model(self) -> Datum
        decreases self,
    {
        match self.0 {
            InnerScalarValue::Null => Datum::Null,
            InnerScalarValue::Bool(b) => Datum::Bool(b),
            InnerScalarValue::Primitive(v) => Datum::Primitive(v as int),
            InnerScalarValue::Buffer(b) => Datum::Bytes(b@),
            InnerScalarValue::List(l) => Datum::List(values_view(l.values@)),
        }
    }

    /// The null value.
    pub fn null() -> (r: ScalarValue)
        ensures r@ == Datum::Null,
    {
        ScalarValue(InnerScalarValue::Null)
    }

    /// A boolean value.
    pub fn bool(value: bool) -> (r: ScalarValue)
        ensures r@ == Datum::Bool(value),
    {
        ScalarValue(InnerScalarValue::Bool(value))
    }

    /// A primitive value, carried as an integer.
    pub fn primitive(value: i128) -> (r: ScalarValue)
        ensures r@ == Datum::Primitive(value as int),
    {
        ScalarValue(InnerScalarValue::Primitive(value))
    }

    /// A binary or UTF-8 value.
    pub fn buffer(bytes: Vec<u8>) -> (r: ScalarValue)
        ensures r@ == Datum::Bytes(bytes@),
    {
        ScalarValue(InnerScalarValue::Buffer(bytes))
    }

    /// A list of values, or a struct row.
    pub fn list(values: Vec<ScalarValue>) -> (r: ScalarValue)
        ensures r@ == Datum::List(values_view(values@)),
    {
        ScalarValue(InnerScalarValue::List(ListValue { values }))
    }

    pub fn is_null(&self) -> (r: bool)
        ensures r == (self@ == Datum::Null),
    {
        match &self.0 {
            InnerScalarValue::Null => true,
            _ => false,
        }
    }

    /// The boolean held, `None` for null.
    pub fn as_bool(&self) -> (r: Result<Option<bool>, VortexError>)
        ensures
            self@ is Null ==> r == Ok::<Option<bool>, VortexError>(None),
            self@ is Bool ==> r == Ok::<Option<bool>, VortexError>(Some(self@->Bool_0)),
            !(self@ is Null || self@ is Bool) ==> r == Err::<Option<bool>, VortexError>(
                VortexError::InvalidArgument,
            ),
    {
        match &self.0 {
            InnerScalarValue::Null => Ok(None),
            InnerScalarValue::Bool(b) => Ok(Some(*b)),
            _ => Err(VortexError::InvalidArgument),
        }
    }

    /// A deep copy.
    #[verifier::loop_isolation(false)]
    pub fn clone(&self) -> (r: ScalarValue)
        ensures r@ == self@,
        decreases self,
    {
        match &self.0 {
            InnerScalarValue::Null => ScalarValue(InnerScalarValue::Null),
            InnerScalarValue::Bool(b) => ScalarValue(InnerScalarValue::Bool(*b)),
            InnerScalarValue::Primitive(v) => ScalarValue(InnerScalarValue::Primitive(*v)),
            InnerScalarValue::Buffer(b) => ScalarValue(InnerScalarValue::Buffer(b.clone())),
            InnerScalarValue::List(l) => {
                let mut values: Vec<ScalarValue> = Vec::new();
                let mut i: usize = 0;
                while i < l.values.len()
                    invariant
                        i <= l.values.len(),
                        values@.len() == i,
                        forall|j: int| 0 <= j < i ==> values@[j].model() == l.values@[j].model(),
                    decreases l.values.len() - i,
                {
                    proof {
                        vstd::std_specs::vec::axiom_vec_index_decreases(l.values, i as int);
                        assert(decreases_to!(*self => self.0));
                        assert(decreases_to!(self.0 => self.0->List_0));
                        assert(decreases_to!(self.0->List_0 => (self.0->List_0).values));
                    }
                    let v = l.values[i].clone();
                    values.push(v);
                    i += 1;
                }
                assert(values_view(values@) =~= values_view(l.values@));
                ScalarValue(InnerScalarValue::List(ListValue { values }))
            },
        }
    }

    /// Whether two values are the same value.
    #[verifier::loop_isolation(false)]
    pub fn eq(&self, other: &ScalarValue) -> (r: bool)
        ensures r == (self@ == other@),
        decreases self,
    {
        match (&self.0, &other.0) {
            (InnerScalarValue::Null, InnerScalarValue::Null) => true,
            (InnerScalarValue::Bool(a), InnerScalarValue::Bool(b)) => *a == *b,
            (InnerScalarValue::Primitive(a), InnerScalarValue::Primitive(b)) => *a == *b,
            (InnerScalarValue::Buffer(a), InnerScalarValue::Buffer(b)) => bytes_eq(a, b),
            (InnerScalarValue::List(l), InnerScalarValue::List(m)) => {
                if l.values.len() != m.values.len() {
                    assert(values_view(l.values@).len() != values_view(m.values@).len());
                    return false;
                }
                let mut i: usize = 0;
                while i < l.values.len()
                    invariant
                        i <= l.values.len(),
                        forall|j: int| 0 <= j < i ==> l.values@[j].model() == m.values@[j].model(),
                    decreases l.values.len() - i,
                {
                    proof {
                        vstd::std_specs::vec::axiom_vec_index_decreases(l.values, i as int);
                        assert(decreases_to!(*self => self.0));
                        assert(decreases_to!(self.0 => self.0->List_0));
                        assert(decreases_to!(self.0->List_0 => (self.0->List_0).values));
                    }
                    if !l.values[i].eq(&m.values[i]) {
                        assert(values_view(l.values@)[i as int] != values_view(m.values@)[i as int]);
                        return false;
                    }
                    i += 1;
                }
                assert(values_view(l.values@) =~= values_view(m.values@));
                true
            },
            _ => false,
        }
    }
}

impl View for ScalarValue {
    type V = Datum;

    open spec fn view(&self) -> Datum {
        self.model()
    }
}

/// What a [`Scalar`] is in specifications.
pub struct ScalarView {
    pub dtype: DTypeView,
    pub value: Datum,
}

/// A value together with its logical type.
#[derive(Debug)]
pub struct Scalar {
    pub dtype: DType,
    pub value: ScalarValue,
}

impl View for Scalar {
    type V = ScalarView;

    open spec fn view(&self) -> ScalarView {
        ScalarView { dtype: self.dtype@, value: self.value@ }
    }
}

impl Scalar {
    /// A boolean scalar of the given nullability.
    pub fn bool(value: bool, nullability: Nullability) -> (r: Scalar)
        ensures r@ == (ScalarView { dtype: DTypeView::Bool(nullability), value: Datum::Bool(value) }),
    {
        Scalar { dtype: DType::Bool(nullability), value: ScalarValue(InnerScalarValue::Bool(value)) }
    }

    /// A primitive scalar of the given type.
    pub fn primitive(value: i128, ptype: crate::dtype::PType, nullability: Nullability) -> (r:
        Scalar)
        ensures
            r@ == (ScalarView {
                dtype: DTypeView::Primitive(ptype, nullability),
                value: Datum::Primitive(value as int),
            }),
    {
        Scalar {
            dtype: DType::Primitive(ptype, nullability),
            value: ScalarValue(InnerScalarValue::Primitive(value)),
        }
    }

    /// The null scalar of a type.
    pub fn null(dtype: DType) -> (r: Scalar)
        ensures r@ == (ScalarView { dtype: dtype@, value: Datum::Null }),
    {
        Scalar { dtype, value: ScalarValue(InnerScalarValue::Null) }
    }

    pub fn dtype(&self) -> (r: &DType)
        ensures *r == self.dtype,
    {
        &self.dtype
    }

    pub fn value(&self) -> (r: &ScalarValue)
        ensures *r == self.value,
    {
        &self.value
    }

    pub fn is_null(&self) -> (r: bool)
        ensures r == (self@.value == Datum::Null),
    {
        self.value.is_null()
    }

    /// A deep copy.
    pub fn clone(&self) -> (r: Scalar)
        ensures r@ == self@,
    {
        Scalar { dtype: self.dtype.clone(), value: self.value.clone() }
    }

    /// The boolean held by a non-null boolean scalar.
    pub fn try_into_bool(&self) -> (r: Result<bool, VortexError>)
        ensures
            r is Ok <==> self@.dtype is Bool && self@.value is Bool,
            r is Ok ==> r->Ok_0 == self@.value->Bool_0,
            r is Err ==> r->Err_0 == VortexError::InvalidArgument,
    {
        match BoolScalar::try_from(self) {
            Ok(b) => match b.value() {
                Some(v) => Ok(v),
                None => Err(VortexError::InvalidArgument),
            },
            Err(e) => Err(e),
        }
    }
}

impl From<bool> for Scalar {
    fn from(value: bool) -> (r: Scalar) {
        Scalar {
            dtype: DType::Bool(Nullability::NonNullable),
            value: ScalarValue(InnerScalarValue::Bool(value)),
        }
    }
}

impl vstd::std_specs::convert::FromSpecImpl<bool> for Scalar {
    open spec fn obeys_from_spec() -> bool {
        true
    }

    open spec fn from_spec(value: bool) -> Scalar {
        Scalar {
            dtype: DType::Bool(Nullability::NonNullable),
            value: ScalarValue(InnerScalarValue::Bool(value)),
        }
    }
}

/// A boolean scalar seen through its type: the value, or `None` for null.
pub struct BoolScalar<'a> {
    dtype: &'a DType,
    value: Option<bool>,
}

impl<'a> BoolScalar<'a> {
    pub closed spec fn spec_dtype(&self) -> DType {
        *self.dtype
    }

    pub closed spec fn spec_value(&self) -> Option<bool> {
        self.value
    }

    /// Reads a scalar as a boolean one. Fails with `InvalidArgument` unless the scalar's type
    /// is boolean and its value a boolean or null.
    pub fn try_from(scalar: &'a Scalar) -> (r: Result<BoolScalar<'a>, VortexError>)
        ensures
            r is Ok <==> scalar@.dtype is Bool && (scalar@.value is Bool || scalar@.value is Null),
            r is Ok ==> r->Ok_0.spec_dtype() == scalar.dtype && r->Ok_0.spec_value() == (
            if scalar@.value is Bool {
                Some(scalar@.value->Bool_0)
            } else {
                None::<bool>
            }),
            r is Err ==> r->Err_0 == VortexError::InvalidArgument,
    {
        match &scalar.dtype {
            DType::Bool(_) => {},
            _ => {
                return Err(VortexError::InvalidArgument);
            },
        }
        match scalar.value.as_bool() {
            Ok(value) => Ok(BoolScalar { dtype: &scalar.dtype, value }),
            Err(e) => Err(e),
        }
    }

    pub fn dtype(&self) -> (r: &'a DType)
        ensures *r == self.spec_dtype(),
    {
        self.dtype
    }

    pub fn value(&self) -> (r: Option<bool>)
        ensures r == self.spec_value(),
    {
        self.value
    }

    /// Casts to another boolean type. A null value, or a target that is not boolean, is
    /// refused with `InvalidArgument`.
    pub fn cast(&self, dtype: &DType) -> (r: Result<Scalar, VortexError>)
        ensures
            r is Ok <==> dtype@ is Bool && self.spec_value() is Some,
            r is Ok ==> r->Ok_0@ == (ScalarView {
                dtype: dtype@,
                value: Datum::Bool(self.spec_value()->Some_0),
            }),
            r is Err ==> r->Err_0 == VortexError::InvalidArgument,
    {
        match dtype {
            DType::Bool(n) => match self.value {
                Some(v) => Ok(Scalar::bool(v, *n)),
                None => Err(VortexError::InvalidArgument),
            },
            _ => Err(VortexError::InvalidArgument),
        }
    }

    /// The negation; null stays null.
    pub fn invert(self) -> (r: BoolScalar<'a>)
        ensures
            r.spec_dtype() == self.spec_dtype(),
            r.spec_value() == (match self.spec_value() {
                Some(v) => Some(!v),
                None => None::<bool>,
            }),
    {
        let value = match self.value {
            Some(v) => Some(!v),
            None => None,
        };
        BoolScalar { dtype: self.dtype, value }
    }

    /// Back to a plain scalar of the same type.
    pub fn into_scalar(self) -> (r: Scalar)
        ensures
            r@.dtype == self.spec_dtype()@,
            r@.value == (match self.spec_value() {
                Some(v) => Datum::Bool(v),
                None => Datum::Null,
            }),
    {
        let value = match self.value {
            Some(v) => ScalarValue(InnerScalarValue::Bool(v)),
            None => ScalarValue(InnerScalarValue::Null),
        };
        Scalar { dtype: self.dtype.clone(), value }
    }
}

} // verus!
