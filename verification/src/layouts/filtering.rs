//! Row filters: what a conjunction of predicates selects of a batch.

use vstd::prelude::*;

use crate::array::{ArrayData, ArrayView, BoolArray, ConstantArray, StructArray};
use crate::bits::{buffer_and, buffer_unset};
use crate::compute::boolean::{and, combine, combined, true_bits, true_count};
use crate::compute::compare::{comparable, compare, compared};
use crate::compute::mask::count_true;
use crate::compute::scalar_at::value_at;
use crate::dtype::{resolve, resolve_field, DType, DTypeView, Nullability};
use crate::error::VortexError;
use crate::expr::{exprs_view, ExprView, Operator, RowFilter, VortexExpr};
use crate::scalar::{Datum, InnerScalarValue, Scalar};
use crate::validity::Validity;

verus! {

/// What a batch is to an expression: named columns of one length.
pub struct BatchView {
    pub names: Seq<Seq<char>>,
    pub columns: Seq<ArrayView>,
    pub len: nat,
}

/// A boolean view with nulls read as `false`: non-nullable booleans.
pub open spec fn null_as_false_view(v: ArrayView) -> ArrayView {
    ArrayView {
        dtype: DTypeView::Bool(Nullability::NonNullable),
        elements: Seq::new(v.elements.len(), |i: int| Datum::Bool(v.elements[i] == Datum::Bool(true))),
    }
}

/// `len` times `false`.
pub open spec fn all_false(len: nat) -> ArrayView {
    ArrayView {
        dtype: DTypeView::Bool(Nullability::NonNullable),
        elements: Seq::new(len, |i: int| Datum::Bool(false)),
    }
}

/// The value of a binary expression from the values of its sides.
pub open spec fn binary_view(a: ArrayView, op: Operator, c: ArrayView) -> Result<ArrayView, VortexError> {
    match op {
        Operator::And | Operator::Or => if a.dtype is Bool && c.dtype is Bool && a.elements.len()
            == c.elements.len() {
            Ok(combined(a, c, op == Operator::And))
        } else {
            Err(VortexError::InvalidArgument)
        },
        _ => if a.elements.len() == c.elements.len() && comparable(a.dtype, c.dtype) {
            Ok(compared(a, c, comparison(op)))
        } else {
            Err(VortexError::InvalidArgument)
        },
    }
}

/// The comparison that an operator stands for.
pub open spec fn comparison(op: Operator) -> crate::compute::compare::Operator {
    match op {
        Operator::Eq => crate::compute::compare::Operator::Eq,
        Operator::NotEq => crate::compute::compare::Operator::NotEq,
        Operator::Gt => crate::compute::compare::Operator::Gt,
        Operator::Gte => crate::compute::compare::Operator::Gte,
        Operator::Lt => crate::compute::compare::Operator::Lt,
        _ => crate::compute::compare::Operator::Lte,
    }
}

/// The value of an expression on a batch. A column is the batch's column of that name or
/// number; a literal is its scalar at every row; a binary expression compares or combines
/// its sides; a row filter is `true` at the rows where every predicate is `true`, nulls
/// reading as `false`. `Like` and selections have no value here.
pub open spec fn eval(e: ExprView, b: BatchView) -> Result<ArrayView, VortexError>
    decreases e, 0int,
{
    match e {
        ExprView::Column(f) => match resolve_field(b.names, f) {
            Some(i) => if i < b.columns.len() {
                Ok(b.columns[i])
            } else {
                Err(VortexError::InvalidArgument)
            },
            None => Err(VortexError::InvalidArgument),
        },
        ExprView::Literal(s) => Ok(
            ArrayView { dtype: s.dtype, elements: Seq::new(b.len, |i: int| s.value) },
        ),
        ExprView::BinaryExpr(l, op, r) => match eval(*l, b) {
            Err(e) => Err(e),
            Ok(a) => match eval(*r, b) {
                Err(e) => Err(e),
                Ok(c) => binary_view(a, op, c),
            },
        },
        ExprView::Like(_, _, _, _) => Err(VortexError::Unsupported),
        ExprView::Include(_) => Err(VortexError::Unsupported),
        ExprView::Exclude(_) => Err(VortexError::Unsupported),
        ExprView::RowFilter(cs) => eval_conjunction(cs, b),
    }
}

/// The value of a row filter. The predicates are evaluated in order and combined; once no
/// row is left the rest is not evaluated. A filter without predicates has no value.
pub open spec fn eval_conjunction(cs: Seq<ExprView>, b: BatchView) -> Result<ArrayView, VortexError>
    decreases cs, 1int, cs.len(),
{
    if cs.len() == 0 {
        Err(VortexError::InvalidArgument)
    } else {
        match eval(cs[0], b) {
            Err(e) => Err(e),
            Ok(m) => eval_rest(cs, b, m, 1),
        }
    }
}

/// The value of a row filter from its predicate `i` on, given the mask of those before.
pub open spec fn eval_rest(cs: Seq<ExprView>, b: BatchView, mask: ArrayView, i: int) -> Result<
    ArrayView,
    VortexError,
>
    decreases cs, 0int, cs.len() - i,
{
    if i < 1 || i >= cs.len() {
        if mask.dtype is Bool {
            Ok(null_as_false_view(mask))
        } else {
            Err(VortexError::InvalidArgument)
        }
    } else if count_true(true_bits(mask.elements)) == 0 {
        Ok(all_false(b.len))
    } else {
        match eval(cs[i], b) {
            Err(e) => Err(e),
            Ok(m) => if m.dtype is Bool && mask.dtype is Bool && m.elements.len()
                == mask.elements.len() {
                eval_rest(cs, b, combined(m, mask, true), i + 1)
            } else {
                Err(VortexError::InvalidArgument)
            },
        }
    }
}

/// The columns of a struct array as views.
pub open spec fn columns_view(fields: Seq<ArrayData>) -> Seq<ArrayView> {
    Seq::new(fields.len(), |i: int| fields[i]@)
}

impl StructArray {
    /// The struct array as a batch.
    pub open spec fn batch(self) -> BatchView {
        BatchView {
            names: self.dtype@->Struct_0,
            columns: columns_view(self.fields@),
            len: self.len as nat,
        }
    }
}

/// Nulls read as `false`: the same values where the array has no nulls, none set where it
/// has nothing but nulls, and else the values that are both set and valid.
pub fn null_as_false(array: BoolArray) -> (r: Result<ArrayData, VortexError>)
    requires
        array.wf(),
    ensures
        r is Ok,
        r->Ok_0.wf(),
        r->Ok_0 is Bool,
        r->Ok_0@ == null_as_false_view(ArrayData::Bool(array)@),
{
    let ghost want = null_as_false_view(ArrayData::Bool(array)@);
    let out = match array.validity {
        Validity::NonNullable => BoolArray { values: array.values, validity: Validity::NonNullable },
        Validity::AllValid => BoolArray { values: array.values, validity: Validity::NonNullable },
        Validity::AllInvalid => BoolArray {
            values: buffer_unset(array.values.len()),
            validity: Validity::NonNullable,
        },
        Validity::Array(v) => {
            let bool_buffer = buffer_and(&array.values, &v);
            BoolArray { values: bool_buffer, validity: Validity::NonNullable }
        },
    };
    proof {
        assert(out.elements() =~= want.elements);
    }
    Ok(ArrayData::Bool(out))
}

/// The booleans of a boolean array in any encoding, with their validity.
pub fn to_bool_array(array: &ArrayData) -> (r: Result<BoolArray, VortexError>)
    requires
        array.wf(),
    ensures
        r is Ok <==> array.dtype_spec() is Bool,
        r is Err ==> r->Err_0 == VortexError::InvalidArgument,
        r is Ok ==> r->Ok_0.wf() && r->Ok_0.values@.len() == array.elements().len() && true_bits(
            r->Ok_0.elements(),
        ) == true_bits(array.elements()),
{
    match array.dtype() {
        DType::Bool(_) => {},
        _ => {
            return Err(VortexError::InvalidArgument);
        },
    }
    let n = array.len();
    let mut values: Vec<bool> = Vec::new();
    let mut valid: Vec<bool> = Vec::new();
    let mut i: usize = 0;
    while i < n
        invariant
            array.wf(),
            n == array.elements().len(),
            i <= n,
            values@.len() == i,
            valid@.len() == i,
            forall|j: int| 0 <= j < i ==> (#[trigger] valid@[j]) == (array.elements()[j] is Bool),
            forall|j: int| 0 <= j < i && valid@[j] ==> Datum::Bool(#[trigger] values@[j]) == array.elements()[j],
        decreases n - i,
    {
        let v = value_at(array, i);
        match &v.0 {
            InnerScalarValue::Bool(x) => {
                values.push(*x);
                valid.push(true);
            },
            _ => {
                values.push(false);
                valid.push(false);
            },
        }
        i += 1;
    }
    let r = BoolArray { values, validity: Validity::Array(valid) };
    proof {
        assert(true_bits(r.elements()) =~= true_bits(array.elements()));
    }
    Ok(r)
}

/// Whether an operator compares, and which comparison it is.
pub fn as_comparison(op: Operator) -> (r: Option<crate::compute::compare::Operator>)
    ensures
        r is None <==> op == Operator::And || op == Operator::Or,
        r is Some ==> r->Some_0 == comparison(op),
{
    match op {
        Operator::Eq => Some(crate::compute::compare::Operator::Eq),
        Operator::NotEq => Some(crate::compute::compare::Operator::NotEq),
        Operator::Gt => Some(crate::compute::compare::Operator::Gt),
        Operator::Gte => Some(crate::compute::compare::Operator::Gte),
        Operator::Lt => Some(crate::compute::compare::Operator::Lt),
        Operator::Lte => Some(crate::compute::compare::Operator::Lte),
        _ => None,
    }
}

/// Whether an evaluation gave what the expression's value says.
pub open spec fn agrees(r: Result<ArrayData, VortexError>, want: Result<ArrayView, VortexError>) -> bool {
    match want {
        Ok(v) => r is Ok && r->Ok_0.wf() && r->Ok_0@ == v,
        Err(e) => r == Err::<ArrayData, VortexError>(e),
    }
}

impl VortexExpr {
    /// Evaluates the expression on a batch of named columns.
    #[verifier::rlimit(40)]
    pub fn evaluate_struct(&self, batch: &StructArray) -> (r: Result<ArrayData, VortexError>)
        requires
            batch.wf(),
        ensures
            agrees(r, eval(self@, batch.batch())),
        decreases self, 1int,
    {
        match self {
            VortexExpr::Column(f) => {
                match &batch.dtype {
                    DType::Struct(s, _) => {
                        match resolve(&s.names, f) {
                            Some(i) => {
                                if i < batch.fields.len() {
                                    Ok(batch.fields[i].clone())
                                } else {
                                    Err(VortexError::InvalidArgument)
                                }
                            },
                            None => Err(VortexError::InvalidArgument),
                        }
                    },
                    _ => Err(VortexError::InvalidArgument),
                }
            },
            VortexExpr::Literal(s) => {
                let c = ConstantArray { scalar: s.clone(), len: batch.len };
                assert(c.elements() =~= Seq::new(batch.len as nat, |i: int| s@.value));
                Ok(ArrayData::Constant(c))
            },
            VortexExpr::BinaryExpr(l, op, r) => {
                let a = match (**l).evaluate_struct(batch) {
                    Ok(a) => a,
                    Err(e) => {
                        return Err(e);
                    },
                };
                let c = match (**r).evaluate_struct(batch) {
                    Ok(c) => c,
                    Err(e) => {
                        return Err(e);
                    },
                };
                match as_comparison(*op) {
                    Some(cop) => compare(&a, &c, cop),
                    None => combine(&a, &c, *op == Operator::And),
                }
            },
            VortexExpr::Like(_, _, _, _) => Err(VortexError::Unsupported),
            VortexExpr::Select(s) => {
                proof {
                    assert(self@ is Include || self@ is Exclude);
                }
                Err(VortexError::Unsupported)
            },
            VortexExpr::RowFilter(rf) => {
                proof {
                    assert(decreases_to!(*self => self->RowFilter_0));
                }
                rf.evaluate_struct(batch)
            },
        }
    }

    /// Evaluates the expression on a batch, which must be a struct array: any other is
    /// refused with `InvalidArgument`.
    pub fn evaluate(&self, batch: &ArrayData) -> (r: Result<ArrayData, VortexError>)
        requires
            batch.wf(),
        ensures
            batch is Struct ==> agrees(r, eval(self@, batch->Struct_0.batch())),
            !(batch is Struct) ==> r == Err::<ArrayData, VortexError>(VortexError::InvalidArgument),
    {
        match batch {
            ArrayData::Struct(s) => self.evaluate_struct(s),
            _ => Err(VortexError::InvalidArgument),
        }
    }
}

impl RowFilter {
    /// Evaluates the filter on a batch of named columns: `true` at the rows where every
    /// predicate is `true`. Once a mask has no row left, the predicates after it are not
    /// evaluated.
    #[verifier::rlimit(40)]
    pub fn evaluate_struct(&self, batch: &StructArray) -> (r: Result<ArrayData, VortexError>)
        requires
            batch.wf(),
        ensures
            agrees(r, eval_conjunction(exprs_view(self.conjunction@), batch.batch())),
        decreases self, 0int,
    {
        let ghost cs = exprs_view(self.conjunction@);
        let ghost b = batch.batch();
        let n = self.conjunction.len();
        if n == 0 {
            return Err(VortexError::InvalidArgument);
        }
        proof {
            vstd::std_specs::vec::axiom_vec_index_decreases(self.conjunction, 0);
            assert(decreases_to!(*self => self.conjunction));
            assert(cs[0] == self.conjunction@[0].model());
        }
        let mut mask = match self.conjunction[0].evaluate_struct(batch) {
            Ok(m) => m,
            Err(e) => {
                return Err(e);
            },
        };
        let mut i: usize = 1;
        while i < n
            invariant
                batch.wf(),
                cs == exprs_view(self.conjunction@),
                b == batch.batch(),
                n == self.conjunction@.len(),
                1 <= i <= n,
                mask.wf(),
                eval_conjunction(cs, b) == eval_rest(cs, b, mask@, i as int),
            decreases n - i,
        {
            if true_count(&mask) == 0 {
                let c = ConstantArray {
                    scalar: Scalar::bool(false, Nullability::NonNullable),
                    len: batch.len,
                };
                assert(c.elements() =~= all_false(b.len).elements);
                return Ok(ArrayData::Constant(c));
            }
            proof {
                vstd::std_specs::vec::axiom_vec_index_decreases(self.conjunction, i as int);
                assert(decreases_to!(*self => self.conjunction));
                assert(cs[i as int] == self.conjunction@[i as int].model());
            }
            let new_mask = match self.conjunction[i].evaluate_struct(batch) {
                Ok(m) => m,
                Err(e) => {
                    return Err(e);
                },
            };
            mask = match and(&new_mask, &mask) {
                Ok(m) => m,
                Err(e) => {
                    return Err(e);
                },
            };
            i += 1;
        }
        match to_bool_array(&mask) {
            Ok(bools) => {
                let r = null_as_false(bools);
                proof {
                    let got = r->Ok_0@.elements;
                    let want = null_as_false_view(mask@).elements;
                    assert forall|j: int| 0 <= j < want.len() implies got[j] == want[j] by {
                        assert(true_bits(bools.elements())[j] == true_bits(mask.elements())[j]);
                    }
                    assert(got =~= want);
                }
                r
            },
            Err(e) => Err(e),
        }
    }

    /// Evaluates the filter on a batch, which must be a struct array: any other is refused
    /// with `InvalidArgument`.
    pub fn evaluate(&self, batch: &ArrayData) -> (r: Result<ArrayData, VortexError>)
        requires
            batch.wf(),
        ensures
            batch is Struct ==> agrees(
                r,
                eval_conjunction(exprs_view(self.conjunction@), batch->Struct_0.batch()),
            ),
            !(batch is Struct) ==> r == Err::<ArrayData, VortexError>(VortexError::InvalidArgument),
    {
        match batch {
            ArrayData::Struct(s) => self.evaluate_struct(s),
            _ => Err(VortexError::InvalidArgument),
        }
    }
}

} // verus!
