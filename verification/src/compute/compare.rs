//! Comparing two arrays element by element.

use vstd::prelude::*;

use crate::array::{
    concat_elements, lemma_concat_len_monotone, ArrayData, ArrayView, BoolArray, ChunkedArray,
    PrimitiveArray,
};
use crate::compute::scalar_at::value_at;
use crate::compute::search_sorted::Order;
use crate::compute::slice::{lemma_concat_chunk_range, lemma_concat_push, slice_unchecked};
use crate::dtype::{DType, DTypeView, Nullability, PType};
use crate::error::VortexError;
use crate::scalar::{Datum, InnerScalarValue, ScalarValue};
use crate::validity::Validity;

verus! {

/// The comparisons.
#[derive(Clone, Copy, Debug, PartialEq, Eq, Structural, Hash)]
pub enum Operator {
    Eq,
    NotEq,
    Gt,
    Gte,
    Lt,
    Lte,
}

/// The width in bits of a float ptype, 0 for an integer ptype.
pub open spec fn float_bits(ptype: PType) -> int {
    match ptype {
        PType::F16 => 16,
        PType::F32 => 32,
        PType::F64 => 64,
        _ => 0,
    }
}

/// Half the number of bit patterns of a float of the given width: the pattern of the sign
/// bit alone.
pub open spec fn sign_bit(bits: int) -> int {
    if bits == 16 {
        0x8000
    } else if bits == 32 {
        0x8000_0000
    } else {
        0x8000_0000_0000_0000
    }
}

/// The place of a primitive value in the order of its ptype. An integer is its own place.
/// Floats, carried as bits, are in IEEE total order: negative values before positive ones,
/// and among the negative the greater pattern first.
pub open spec fn order_key(ptype: PType, raw: int) -> int {
    if float_bits(ptype) == 0 || raw < sign_bit(float_bits(ptype)) {
        raw
    } else {
        sign_bit(float_bits(ptype)) - 1 - raw
    }
}

/// How two integers stand.
pub open spec fn int_order(a: int, b: int) -> Order {
    if a < b {
        Order::Less
    } else if a == b {
        Order::Equal
    } else {
        Order::Greater
    }
}

/// How two byte strings stand from position `i` on, given that they agree before it.
pub open spec fn lex_order(a: Seq<u8>, b: Seq<u8>, i: int) -> Order
    decreases a.len() - i,
{
    if i >= a.len() && i >= b.len() {
        Order::Equal
    } else if i >= a.len() {
        Order::Less
    } else if i >= b.len() {
        Order::Greater
    } else if a[i] < b[i] {
        Order::Less
    } else if a[i] > b[i] {
        Order::Greater
    } else {
        lex_order(a, b, i + 1)
    }
}

/// How two values stand, where they can be compared: booleans with `false` first, primitive
/// values by their place in the order of `ptype`, byte strings byte by byte.
pub open spec fn datum_order(ptype: PType, a: Datum, b: Datum) -> Option<Order> {
    match (a, b) {
        (Datum::Bool(x), Datum::Bool(y)) => Some(
            int_order(
                if x {
                    1
                } else {
                    0
                },
                if y {
                    1
                } else {
                    0
                },
            ),
        ),
        (Datum::Primitive(x), Datum::Primitive(y)) => Some(
            int_order(order_key(ptype, x), order_key(ptype, y)),
        ),
        (Datum::Bytes(x), Datum::Bytes(y)) => Some(lex_order(x, y, 0)),
        _ => None,
    }
}

/// Whether an order answers a comparison.
pub open spec fn holds_of(op: Operator, order: Order) -> bool {
    match op {
        Operator::Eq => order == Order::Equal,
        Operator::NotEq => order != Order::Equal,
        Operator::Gt => order == Order::Greater,
        Operator::Gte => order != Order::Less,
        Operator::Lt => order == Order::Less,
        Operator::Lte => order != Order::Greater,
    }
}

/// The comparison of two elements: null where either is null or the two cannot be compared.
pub open spec fn compare_datum(ptype: PType, a: Datum, b: Datum, op: Operator) -> Datum {
    match datum_order(ptype, a, b) {
        Some(order) => Datum::Bool(holds_of(op, order)),
        None => Datum::Null,
    }
}

/// The negation of a boolean element; null stays null.
pub open spec fn not_datum(d: Datum) -> Datum {
    match d {
        Datum::Bool(b) => Datum::Bool(!b),
        other => other,
    }
}

/// The ptype by which the elements of a dtype are ordered.
pub open spec fn ptype_of(dtype: DTypeView) -> PType {
    match dtype {
        DTypeView::Primitive(p, _) => p,
        _ => PType::U8,
    }
}

/// The element-wise comparison of two sequences of one length.
pub open spec fn compare_elements(ptype: PType, a: Seq<Datum>, b: Seq<Datum>, op: Operator) -> Seq<
    Datum,
> {
    Seq::new(a.len(), |i: int| compare_datum(ptype, a[i], b[i], op))
}

/// The comparison of two arrays: nullable booleans, one per position.
pub open spec fn compared(lhs: ArrayView, rhs: ArrayView, op: Operator) -> ArrayView {
    ArrayView {
        dtype: DTypeView::Bool(Nullability::Nullable),
        elements: compare_elements(ptype_of(lhs.dtype), lhs.elements, rhs.elements, op),
    }
}

/// The element-wise negation of a boolean array's view.
pub open spec fn negated(v: ArrayView) -> ArrayView {
    ArrayView { dtype: v.dtype, elements: Seq::new(v.elements.len(), |i: int| not_datum(v.elements[i])) }
}

/// Whether arrays of these dtypes can be compared: booleans, primitives of one ptype, or
/// strings of one kind, whatever their nullability.
pub open spec fn comparable(lhs: DTypeView, rhs: DTypeView) -> bool {
    match (lhs, rhs) {
        (DTypeView::Bool(_), DTypeView::Bool(_)) => true,
        (DTypeView::Primitive(p, _), DTypeView::Primitive(q, _)) => p == q,
        (DTypeView::Utf8(_), DTypeView::Utf8(_)) => true,
        (DTypeView::Binary(_), DTypeView::Binary(_)) => true,
        _ => false,
    }
}

/// Comparing for inequality is comparing for equality and negating, nulls staying null.
pub proof fn law_not_eq_is_not_eq(lhs: ArrayView, rhs: ArrayView)
    ensures
        compared(lhs, rhs, Operator::NotEq) == negated(compared(lhs, rhs, Operator::Eq)),
{
    assert(compared(lhs, rhs, Operator::NotEq).elements =~= negated(
        compared(lhs, rhs, Operator::Eq),
    ).elements);
}

/// A comparison depends on the elements and the dtype alone: a constant or a compressed
/// right-hand side gives what its elements spelled out give.
pub proof fn law_compare_by_view(lhs: ArrayData, rhs_a: ArrayData, rhs_b: ArrayData, op: Operator)
    requires
        rhs_a@ == rhs_b@,
    ensures
        compared(lhs@, rhs_a@, op) == compared(lhs@, rhs_b@, op),
{
}

/// The place of a primitive value in the order of its ptype.
pub fn order_key_of(ptype: PType, raw: i128) -> (r: i128)
    ensures
        r == order_key(ptype, raw as int),
{
    let sign: i128 = match ptype {
        PType::F16 => 0x8000,
        PType::F32 => 0x8000_0000,
        PType::F64 => 0x8000_0000_0000_0000,
        _ => {
            return raw;
        },
    };
    if raw < sign {
        raw
    } else {
        sign - 1 - raw
    }
}

/// How two byte strings stand, byte by byte, the shorter first where one begins the other.
pub fn bytes_order(a: &Vec<u8>, b: &Vec<u8>) -> (r: Order)
    ensures
        r == lex_order(a@, b@, 0),
{
    let mut i: usize = 0;
    while i < a.len() && i < b.len()
        invariant
            i <= a@.len(),
            i <= b@.len(),
            lex_order(a@, b@, 0) == lex_order(a@, b@, i as int),
        decreases a@.len() - i,
    {
        if a[i] < b[i] {
            return Order::Less;
        }
        if a[i] > b[i] {
            return Order::Greater;
        }
        i += 1;
    }
    if i >= a.len() && i >= b.len() {
        Order::Equal
    } else if i >= a.len() {
        Order::Less
    } else {
        Order::Greater
    }
}

/// Whether an order answers a comparison.
pub fn holds(op: Operator, order: Order) -> (r: bool)
    ensures
        r == holds_of(op, order),
{
    match op {
        Operator::Eq => order == Order::Equal,
        Operator::NotEq => order != Order::Equal,
        Operator::Gt => order == Order::Greater,
        Operator::Gte => order != Order::Less,
        Operator::Lt => order == Order::Less,
        Operator::Lte => order != Order::Greater,
    }
}

/// The comparison of two values: `None` where either is null or the two cannot be
/// compared.
pub fn compare_values(ptype: PType, a: &ScalarValue, b: &ScalarValue, op: Operator) -> (r: Option<
    bool,
>)
    ensures
        compare_datum(ptype, a@, b@, op) == (match r {
            Some(x) => Datum::Bool(x),
            None => Datum::Null,
        }),
{
    match (&a.0, &b.0) {
        (InnerScalarValue::Bool(x), InnerScalarValue::Bool(y)) => {
            let order = if !*x && *y {
                Order::Less
            } else if *x == *y {
                Order::Equal
            } else {
                Order::Greater
            };
            Some(holds(op, order))
        },
        (InnerScalarValue::Primitive(x), InnerScalarValue::Primitive(y)) => {
            let kx = order_key_of(ptype, *x);
            let ky = order_key_of(ptype, *y);
            let order = if kx < ky {
                Order::Less
            } else if kx == ky {
                Order::Equal
            } else {
                Order::Greater
            };
            Some(holds(op, order))
        },
        (InnerScalarValue::Buffer(x), InnerScalarValue::Buffer(y)) => Some(
            holds(op, bytes_order(x, y)),
        ),
        _ => None,
    }
}

/// Whether arrays of these dtypes can be compared.
pub fn is_comparable(lhs: &DType, rhs: &DType) -> (r: bool)
    ensures
        r == comparable(lhs@, rhs@),
{
    match (lhs, rhs) {
        (DType::Bool(_), DType::Bool(_)) => true,
        (DType::Primitive(p, _), DType::Primitive(q, _)) => *p == *q,
        (DType::Utf8(_), DType::Utf8(_)) => true,
        (DType::Binary(_), DType::Binary(_)) => true,
        _ => false,
    }
}

/// The ptype by which the elements of a dtype are ordered.
pub fn ordering_ptype(dtype: &DType) -> (r: PType)
    ensures
        r == ptype_of(dtype@),
{
    match dtype {
        DType::Primitive(p, _) => *p,
        _ => PType::U8,
    }
}

/// The comparison of two arrays of one length, element by element.
pub fn compare_elementwise(lhs: &ArrayData, rhs: &ArrayData, op: Operator) -> (r: ArrayData)
    requires
        lhs.wf(),
        rhs.wf(),
        lhs.elements().len() == rhs.elements().len(),
    ensures
        r.wf(),
        r@ == compared(lhs@, rhs@, op),
{
    let n = lhs.len();
    let dtype = lhs.dtype();
    let ptype = ordering_ptype(&dtype);
    let mut values: Vec<bool> = Vec::new();
    let mut valid: Vec<bool> = Vec::new();
    let mut i: usize = 0;
    while i < n
        invariant
            lhs.wf(),
            rhs.wf(),
            n == lhs.elements().len(),
            n == rhs.elements().len(),
            ptype == ptype_of(lhs.dtype_spec()),
            i <= n,
            values@.len() == i,
            valid@.len() == i,
            forall|j: int| 0 <= j < i ==> compare_datum(ptype, lhs.elements()[j], rhs.elements()[j], op)
                == (if #[trigger] valid@[j] {
                Datum::Bool(values@[j])
            } else {
                Datum::Null
            }),
        decreases n - i,
    {
        let a = value_at(lhs, i);
        let b = value_at(rhs, i);
        match compare_values(ptype, &a, &b, op) {
            Some(x) => {
                values.push(x);
                valid.push(true);
            },
            None => {
                values.push(false);
                valid.push(false);
            },
        }
        i += 1;
    }
    let r = BoolArray { values, validity: Validity::Array(valid) };
    proof {
        assert(r.elements() =~= compare_elements(ptype, lhs.elements(), rhs.elements(), op));
    }
    ArrayData::Bool(r)
}

/// Compares two arrays element by element: a nullable boolean array of their length,
/// null where either element is null. A chunked left-hand side is compared chunk by chunk.
/// Arrays of different lengths, or of dtypes that cannot be compared, are refused with
/// `InvalidArgument`.
pub fn compare(lhs: &ArrayData, rhs: &ArrayData, op: Operator) -> (r: Result<ArrayData, VortexError>)
    requires
        lhs.wf(),
        rhs.wf(),
    ensures
        r is Ok <==> lhs.elements().len() == rhs.elements().len() && comparable(
            lhs.dtype_spec(),
            rhs.dtype_spec(),
        ),
        r is Err ==> r->Err_0 == VortexError::InvalidArgument,
        r is Ok ==> r->Ok_0.wf() && r->Ok_0@ == compared(lhs@, rhs@, op),
    decreases lhs, 1int,
{
    if lhs.len() != rhs.len() {
        return Err(VortexError::InvalidArgument);
    }
    let dl = lhs.dtype();
    let dr = rhs.dtype();
    if !is_comparable(&dl, &dr) {
        return Err(VortexError::InvalidArgument);
    }
    match lhs {
        ArrayData::Chunked(a) => Ok(a.compare_unchecked(rhs, op)),
        _ => Ok(compare_elementwise(lhs, rhs, op)),
    }
}

impl PrimitiveArray {
    /// The comparison with `other`, where this encoding has a kernel for it: when `other` is
    /// constant or itself primitive. `None` sends the caller to the general path, which
    /// gives the same result.
    pub fn maybe_compare(&self, other: &ArrayData, op: Operator) -> (r: Option<
        Result<ArrayData, VortexError>,
    >)
        requires
            self.wf(),
            other.wf(),
        ensures
            r is Some <==> other is Constant || other is Primitive,
            r is Some ==> {
                let res = r->Some_0;
                &&& res is Ok <==> self.values@.len() == other.elements().len() && comparable(
                    self.dtype_spec(),
                    other.dtype_spec(),
                )
                &&& res is Err ==> res->Err_0 == VortexError::InvalidArgument
                &&& res is Ok ==> res->Ok_0.wf() && res->Ok_0@ == compared(
                    ArrayData::Primitive(*self)@,
                    other@,
                    op,
                )
            },
    {
        match other {
            ArrayData::Constant(_) | ArrayData::Primitive(_) => {
                let lhs = ArrayData::Primitive(
                    PrimitiveArray {
                        ptype: self.ptype,
                        values: self.values.clone(),
                        validity: self.validity.clone(),
                    },
                );
                assert(lhs.elements() =~= ArrayData::Primitive(*self).elements());
                Some(compare(&lhs, other, op))
            },
            _ => None,
        }
    }
}

/// Whether an array is chunked as the given chunks are: as many chunks, each as long as
/// the chunk at its place.
pub open spec fn chunked_alike(r: ArrayData, chunks: Seq<ArrayData>) -> bool {
    r is Chunked && r->Chunked_0.chunks@.len() == chunks.len() && forall|k: int|
        0 <= k < chunks.len() ==> (#[trigger] r->Chunked_0.chunks@[k]).elements().len()
            == chunks[k].elements().len()
}

impl ChunkedArray {
    /// The comparison of a chunked array with an array of its length and a comparable dtype:
    /// each chunk is compared with the range of `array` that lies against it, and the
    /// results are laid end to end, chunked as the array is.
    #[verifier::rlimit(40)]
    pub fn compare_unchecked(&self, array: &ArrayData, op: Operator) -> (r: ArrayData)
        requires
            self.wf(),
            array.wf(),
            self.elements().len() == array.elements().len(),
            comparable(self.dtype@, array.dtype_spec()),
        ensures
            r.wf(),
            chunked_alike(r, self.chunks@),
            r@ == compared(ArrayData::Chunked(*self)@, array@, op),
        decreases self, 0int,
    {
        let n = self.chunks.len();
        let ghost whole = concat_elements(self.chunks@, n as int);
        let ghost ptype = ptype_of(self.dtype@);
        let mut idx: usize = 0;
        let mut compare_chunks: Vec<ArrayData> = Vec::new();
        let mut k: usize = 0;
        proof {
            assert(concat_elements(compare_chunks@, 0) =~= compare_elements(
                ptype,
                whole.subrange(0, 0),
                array.elements().subrange(0, 0),
                op,
            ));
        }
        while k < n
            invariant
                self.wf(),
                array.wf(),
                n == self.chunks@.len(),
                whole == concat_elements(self.chunks@, n as int),
                whole.len() == array.elements().len(),
                comparable(self.dtype@, array.dtype_spec()),
                ptype == ptype_of(self.dtype@),
                k <= n,
                idx == self.chunk_ends@[k as int],
                compare_chunks@.len() == k,
                forall|j: int| 0 <= j < k ==> (#[trigger] compare_chunks@[j]).elements().len()
                    == self.chunks@[j].elements().len(),
                forall|j: int| 0 <= j < compare_chunks@.len() ==> (#[trigger] compare_chunks@[j]).wf(),
                forall|j: int| 0 <= j < compare_chunks@.len() ==> (#[trigger] compare_chunks@[j]).dtype_spec()
                    == DTypeView::Bool(Nullability::Nullable),
                concat_elements(compare_chunks@, compare_chunks@.len() as int) == compare_elements(
                    ptype,
                    whole.subrange(0, idx as int),
                    array.elements().subrange(0, idx as int),
                    op,
                ),
            decreases n - k,
        {
            proof {
                lemma_concat_chunk_range(self.chunks@, n as int, k as int);
                lemma_concat_len_monotone(self.chunks@, k as int, k + 1);
                assert(self.chunk_ends@[k as int] == concat_elements(self.chunks@, k as int).len());
                assert(self.chunk_ends@[k + 1] == concat_elements(self.chunks@, k + 1).len());
                assert(self.chunk_ends@[n as int] == whole.len());
                assert(self.chunks@[k as int].wf());
                assert(self.chunks@[k as int].dtype_spec() == self.dtype@);
                vstd::std_specs::vec::axiom_vec_index_decreases(self.chunks, k as int);
                assert(decreases_to!(*self => self.chunks));
            }
            let chunk = &self.chunks[k];
            let chunk_len = chunk.len();
            let sliced = slice_unchecked(array, idx, idx + chunk_len);
            let compared_chunk = compare(chunk, &sliced, op);
            match compared_chunk {
                Ok(piece) => {
                    proof {
                        lemma_concat_push(compare_chunks@, piece);
                        let end = idx + chunk_len;
                        assert(compare_elements(ptype, whole.subrange(0, idx as int), array.elements().subrange(0, idx as int), op)
                            + compare_elements(ptype, chunk.elements(), sliced.elements(), op)
                            =~= compare_elements(ptype, whole.subrange(0, end as int), array.elements().subrange(0, end as int), op));
                    }
                    compare_chunks.push(piece);
                },
                Err(_) => {
                    assert(false);
                },
            }
            idx += chunk_len;
            k += 1;
        }
        proof {
            assert(whole.subrange(0, idx as int) =~= whole);
            assert(array.elements().subrange(0, idx as int) =~= array.elements());
            assert(compare_elements(ptype, whole, array.elements(), op).len() == whole.len());
        }
        ArrayData::Chunked(
            ChunkedArray::from_chunks(compare_chunks, DType::Bool(Nullability::Nullable)),
        )
    }

    /// Compares a chunked array with another array, chunk by chunk: the result is chunked
    /// as the array is. Arrays of different lengths, or of dtypes that cannot be compared,
    /// are refused with `InvalidArgument`.
    pub fn compare(&self, array: &ArrayData, op: Operator) -> (r: Result<ArrayData, VortexError>)
        requires
            self.wf(),
            array.wf(),
        ensures
            r is Ok <==> self.elements().len() == array.elements().len() && comparable(
                self.dtype@,
                array.dtype_spec(),
            ),
            r is Err ==> r->Err_0 == VortexError::InvalidArgument,
            r is Ok ==> r->Ok_0.wf() && chunked_alike(r->Ok_0, self.chunks@) && r->Ok_0@ == compared(
                ArrayData::Chunked(*self)@,
                array@,
                op,
            ),
    {
        let n = self.chunks.len();
        assert(self.chunk_ends@[n as int] == concat_elements(self.chunks@, n as int).len());
        if self.chunk_ends[n] as usize != array.len() {
            return Err(VortexError::InvalidArgument);
        }
        let dr = array.dtype();
        if !is_comparable(&self.dtype, &dr) {
            return Err(VortexError::InvalidArgument);
        }
        Ok(self.compare_unchecked(array, op))
    }
}

} // verus!
