//! The variable-length binary encoding: offsets over one run of bytes.

use vstd::prelude::*;

use crate::array::{non_decreasing, present, ArrayData, PrimitiveArray, VarBinArray};
use crate::compute::scalar_at::{copy_range, value_at};
use crate::compute::mask::{indices_in_bounds, take_seq};
use crate::dtype::{DType, DTypeView, Nullability, PType};
use crate::error::VortexError;
use crate::scalar::{Datum, InnerScalarValue, Scalar, ScalarValue, ScalarView};
use crate::validity::Validity;

verus! {

/// What appending one element's bytes does to a run of bytes and its offsets: the elements
/// before keep their bytes, and the new last element holds the piece.
pub proof fn lemma_append_element(
    old_offsets: Seq<usize>,
    old_bytes: Seq<u8>,
    piece: Seq<u8>,
    new_offsets: Seq<usize>,
    new_bytes: Seq<u8>,
)
    requires
        old_offsets.len() >= 1,
        non_decreasing(old_offsets),
        old_offsets[old_offsets.len() - 1] == old_bytes.len(),
        new_bytes == old_bytes + piece,
        new_bytes.len() <= usize::MAX,
        new_offsets == old_offsets.push(new_bytes.len() as usize),
    ensures
        non_decreasing(new_offsets),
        new_offsets[0] == old_offsets[0],
        forall|j: int| 0 <= j < old_offsets.len() - 1 ==> new_bytes.subrange(#[trigger] new_offsets[j] as int, new_offsets[j + 1] as int)
            == old_bytes.subrange(old_offsets[j] as int, old_offsets[j + 1] as int),
        new_bytes.subrange(
            new_offsets[old_offsets.len() - 1] as int,
            new_offsets[old_offsets.len() as int] as int,
        ) == piece,
{
    let k = old_offsets.len() - 1;
    assert forall|i: int, j: int| 0 <= i <= j < new_offsets.len() implies new_offsets[i] <= new_offsets[j] by {
        if j <= k {
            assert(old_offsets[i] <= old_offsets[j]);
        } else if i <= k {
            assert(old_offsets[i] <= old_offsets[k]);
        }
    }
    assert forall|j: int| 0 <= j < k implies new_bytes.subrange(#[trigger] new_offsets[j] as int, new_offsets[j + 1] as int)
        == old_bytes.subrange(old_offsets[j] as int, old_offsets[j + 1] as int) by {
        assert(old_offsets[j] <= old_offsets[j + 1]);
        assert(old_offsets[j + 1] <= old_offsets[k]);
        assert(new_bytes.subrange(new_offsets[j] as int, new_offsets[j + 1] as int)
            =~= old_bytes.subrange(old_offsets[j] as int, old_offsets[j + 1] as int));
    }
    assert(new_bytes.subrange(new_offsets[k] as int, new_offsets[k + 1] as int) =~= piece);
}

/// Appends `data[start..stop]` to `out`.
pub fn append_range(out: &mut Vec<u8>, data: &Vec<u8>, start: usize, stop: usize)
    requires
        start <= stop <= data@.len(),
    ensures
        final(out)@ == old(out)@ + data@.subrange(start as int, stop as int),
{
    let ghost old_bytes = out@;
    let mut b: usize = start;
    assert(out@ =~= old_bytes + data@.subrange(start as int, start as int));
    while b < stop
        invariant
            start <= b <= stop <= data@.len(),
            out@ == old_bytes + data@.subrange(start as int, b as int),
        decreases stop - b,
    {
        out.push(data[b]);
        assert(out@ =~= old_bytes + data@.subrange(start as int, b + 1));
        b += 1;
    }
}

/// The narrowest of the given offsets type and `u64` that holds `last`.
pub fn offsets_ptype_for(ptype: PType, last: usize) -> (r: PType)
    requires ptype.spec_is_int(),
    ensures
        r.spec_is_int(),
        r.holds(last as int),
        ptype.holds(last as int) ==> r == ptype,
        !ptype.holds(last as int) ==> r == PType::U64,
{
    if ptype.in_range(last as i128) {
        ptype
    } else {
        PType::U64
    }
}

/// Gathers the elements at `indices` of a varbin array none of whose elements is null.
/// Every output is valid. An index past the last element is refused with `InvalidArgument`.
#[verifier::rlimit(100)]
pub fn take(
    dtype: DType,
    offsets_ptype: PType,
    offsets: &Vec<usize>,
    data: &Vec<u8>,
    indices: &Vec<usize>,
    validity: &Validity,
) -> (r: Result<VarBinArray, VortexError>)
    requires
        dtype@ is Utf8 || dtype@ is Binary,
        dtype@.nullability() == validity.spec_nullability(),
        offsets_ptype.spec_is_int(),
        offsets@.len() >= 1,
        non_decreasing(offsets@),
        offsets@[offsets@.len() - 1] <= data@.len(),
        validity.wf(offsets@.len() - 1),
    ensures
        indices_in_bounds(indices@, offsets@.len() - 1) <==> r is Ok,
        r is Err ==> r->Err_0 == VortexError::InvalidArgument,
        r is Ok ==> {
            &&& r->Ok_0.wf()
            &&& r->Ok_0.dtype@ == dtype@
            &&& r->Ok_0.offsets@.len() == indices@.len() + 1
            &&& r->Ok_0.offsets@[0] == 0
            &&& forall|k: int| 0 <= k < indices@.len() ==> #[trigger] r->Ok_0.elements()[k] == present(
                    validity.valid_at(indices@[k] as int),
                    Datum::Bytes(
                        data@.subrange(
                            offsets@[indices@[k] as int] as int,
                            offsets@[indices@[k] + 1] as int,
                        ),
                    ),
                )
        },
{
    let n = offsets.len() - 1;
    if !crate::compute::take::check_bounds(indices, n) {
        return Err(VortexError::InvalidArgument);
    }
    match validity {
        Validity::NonNullable | Validity::AllValid => {},
        _ => {
            let null_buffer = validity.to_bools(n);
            return Ok(take_nullable(dtype, offsets_ptype, offsets, data, indices, &null_buffer));
        },
    }
    let mut out_offsets: Vec<usize> = Vec::new();
    let mut out_bytes: Vec<u8> = Vec::new();
    out_offsets.push(0);
    let mut k: usize = 0;
    while k < indices.len()
        invariant
            n == offsets@.len() - 1,
            k <= indices@.len(),
            indices_in_bounds(indices@, n as int),
            non_decreasing(offsets@),
            offsets@[offsets@.len() - 1] <= data@.len(),
            out_offsets@.len() == k + 1,
            out_offsets@[0] == 0,
            out_offsets@[k as int] == out_bytes@.len(),
            non_decreasing(out_offsets@),
            forall|j: int| 0 <= j < k ==> out_bytes@.subrange(#[trigger] out_offsets@[j] as int, out_offsets@[j + 1] as int)
                == data@.subrange(offsets@[indices@[j] as int] as int, offsets@[indices@[j] + 1] as int),
        decreases indices@.len() - k,
    {
        let idx = indices[k];
        let start = offsets[idx];
        let stop = offsets[idx + 1];
        assert(start <= stop <= offsets@[offsets@.len() - 1]);
        let ghost old_bytes = out_bytes@;
        let ghost old_offsets = out_offsets@;
        append_range(&mut out_bytes, data, start, stop);
        out_offsets.push(out_bytes.len());
        proof {
            lemma_append_element(
                old_offsets,
                old_bytes,
                data@.subrange(start as int, stop as int),
                out_offsets@,
                out_bytes@,
            );
        }
        k += 1;
    }
    let out_validity = Validity::all_valid(dtype.nullability());
    let out_ptype = offsets_ptype_for(offsets_ptype, out_bytes.len());
    let r = VarBinArray {
        dtype,
        offsets_ptype: out_ptype,
        offsets: out_offsets,
        bytes: out_bytes,
        validity: out_validity,
    };
    proof {
        assert forall|i: int| 0 <= i < r.offsets@.len() implies r.offsets_ptype.holds(#[trigger] r.offsets@[i] as int) by {
            assert(r.offsets@[i] <= r.offsets@[r.offsets@.len() - 1]);
        }
    }
    Ok(r)
}

/// Gathers the elements at `indices` of a varbin array with nulls, whose validity is given
/// one flag per element. A null element gives a null output that adds no bytes.
pub fn take_nullable(
    dtype: DType,
    offsets_ptype: PType,
    offsets: &Vec<usize>,
    data: &Vec<u8>,
    indices: &Vec<usize>,
    null_buffer: &Vec<bool>,
) -> (r: VarBinArray)
    requires
        dtype@ is Utf8 || dtype@ is Binary,
        dtype@.nullability() == Nullability::Nullable,
        offsets_ptype.spec_is_int(),
        offsets@.len() >= 1,
        non_decreasing(offsets@),
        offsets@[offsets@.len() - 1] <= data@.len(),
        null_buffer@.len() == offsets@.len() - 1,
        indices_in_bounds(indices@, offsets@.len() - 1),
    ensures
        r.wf(),
        r.dtype@ == dtype@,
        r.offsets@.len() == indices@.len() + 1,
        r.offsets@[0] == 0,
        forall|k: int| 0 <= k < indices@.len() ==> #[trigger] r.elements()[k] == present(
            null_buffer@[indices@[k] as int],
            Datum::Bytes(
                data@.subrange(offsets@[indices@[k] as int] as int, offsets@[indices@[k] + 1] as int),
            ),
        ),
{
    let n = offsets.len() - 1;
    let mut out_offsets: Vec<usize> = Vec::new();
    let mut out_bytes: Vec<u8> = Vec::new();
    let mut out_valid: Vec<bool> = Vec::new();
    out_offsets.push(0);
    let mut k: usize = 0;
    while k < indices.len()
        invariant
            n == offsets@.len() - 1,
            k <= indices@.len(),
            indices_in_bounds(indices@, n as int),
            null_buffer@.len() == n,
            non_decreasing(offsets@),
            offsets@[offsets@.len() - 1] <= data@.len(),
            out_offsets@.len() == k + 1,
            out_offsets@[0] == 0,
            out_valid@.len() == k,
            out_offsets@[k as int] == out_bytes@.len(),
            non_decreasing(out_offsets@),
            forall|j: int| 0 <= j < k ==> #[trigger] out_valid@[j] == null_buffer@[indices@[j] as int],
            forall|j: int| 0 <= j < k && out_valid@[j] ==> out_bytes@.subrange(#[trigger] out_offsets@[j] as int, out_offsets@[j + 1] as int)
                == data@.subrange(offsets@[indices@[j] as int] as int, offsets@[indices@[j] + 1] as int),
        decreases indices@.len() - k,
    {
        let idx = indices[k];
        let ghost old_bytes = out_bytes@;
        let ghost old_offsets = out_offsets@;
        let valid = null_buffer[idx];
        if valid {
            let start = offsets[idx];
            let stop = offsets[idx + 1];
            assert(start <= stop <= offsets@[offsets@.len() - 1]);
            append_range(&mut out_bytes, data, start, stop);
        } else {
            assert(out_bytes@ =~= old_bytes + Seq::<u8>::empty());
        }
        out_valid.push(valid);
        out_offsets.push(out_bytes.len());
        proof {
            let piece = if valid {
                data@.subrange(offsets@[idx as int] as int, offsets@[idx + 1] as int)
            } else {
                Seq::<u8>::empty()
            };
            lemma_append_element(old_offsets, old_bytes, piece, out_offsets@, out_bytes@);
        }
        k += 1;
    }
    let out_ptype = offsets_ptype_for(offsets_ptype, out_bytes.len());
    let r = VarBinArray {
        dtype,
        offsets_ptype: out_ptype,
        offsets: out_offsets,
        bytes: out_bytes,
        validity: Validity::Array(out_valid),
    };
    proof {
        assert forall|i: int| 0 <= i < r.offsets@.len() implies r.offsets_ptype.holds(#[trigger] r.offsets@[i] as int) by {
            assert(r.offsets@[i] <= r.offsets@[r.offsets@.len() - 1]);
        }
    }
    r
}

impl VarBinArray {
    /// The elements at positions known to lie within the array, their bytes copied into a
    /// new run that begins at offset zero.
    pub fn take_unchecked(&self, indices: &Vec<usize>) -> (r: VarBinArray)
        requires
            self.wf(),
            indices_in_bounds(indices@, self.elements().len() as int),
        ensures
            r.wf(),
            r.dtype@ == self.dtype@,
            r.offsets@[0] == 0,
            r.elements() == take_seq(self.elements(), indices@),
    {
        let taken = take(
            self.dtype.clone(),
            self.offsets_ptype,
            &self.offsets,
            &self.bytes,
            indices,
            &self.validity,
        );
        match taken {
            Ok(r) => {
                assert(r.elements() =~= take_seq(self.elements(), indices@));
                r
            },
            Err(_) => vstd::pervasive::unreached(),
        }
    }

    /// The elements at `indices`, in that order, as a varbin array whose offsets begin at
    /// zero. An index at or past the length is refused with `InvalidArgument`.
    pub fn take(&self, indices: &Vec<usize>) -> (r: Result<ArrayData, VortexError>)
        requires
            self.wf(),
        ensures
            indices_in_bounds(indices@, self.elements().len() as int) ==> r is Ok && r->Ok_0.wf()
                && r->Ok_0 is VarBin && r->Ok_0->VarBin_0.offsets@[0] == 0
                && r->Ok_0.dtype_spec() == self.dtype@ && r->Ok_0.elements() == take_seq(
                self.elements(),
                indices@,
            ),
            !indices_in_bounds(indices@, self.elements().len() as int) ==> r == Err::<
                ArrayData,
                VortexError,
            >(VortexError::InvalidArgument),
    {
        if !crate::compute::take::check_bounds(indices, self.offsets.len() - 1) {
            return Err(VortexError::InvalidArgument);
        }
        Ok(ArrayData::VarBin(self.take_unchecked(indices)))
    }
}

/// Whether elements are offsets of the given ptype into `max` bytes: at least one, none
/// null, each a value of the ptype that fits `usize`, never decreasing, the last at most
/// `max`.
pub open spec fn is_offsets(elements: Seq<Datum>, ptype: PType, max: int) -> bool {
    &&& elements.len() >= 1
    &&& forall|i: int| 0 <= i < elements.len() ==> (#[trigger] elements[i]) is Primitive && 0
        <= elements[i]->Primitive_0 <= usize::MAX && ptype.holds(elements[i]->Primitive_0)
    &&& forall|i: int, j: int| 0 <= i <= j < elements.len() ==> (#[trigger] elements[i])->Primitive_0 <= (#[trigger] elements[j])->Primitive_0
    &&& elements[elements.len() - 1]->Primitive_0 <= max
}

/// Whether elements are bytes: none null, each between 0 and 255.
pub open spec fn is_bytes(elements: Seq<Datum>) -> bool {
    forall|i: int| 0 <= i < elements.len() ==> (#[trigger] elements[i]) is Primitive && 0
        <= elements[i]->Primitive_0 <= 255
}

/// Whether the dtypes of the parts of a varbin array are right: non-nullable integer
/// offsets, non-nullable `u8` bytes, and a UTF-8 or binary array.
pub open spec fn varbin_types_ok(offsets: DTypeView, bytes: DTypeView, dtype: DTypeView) -> bool {
    &&& offsets.is_int() && !offsets.is_nullable()
    &&& bytes == DTypeView::bytes()
    &&& dtype is Utf8 || dtype is Binary
}

/// The offsets held by an array, if they are offsets of `ptype` into `max` bytes.
#[verifier::rlimit(40)]
fn read_offsets(offsets: &ArrayData, ptype: PType, max: usize) -> (r: Option<Vec<usize>>)
    requires
        offsets.wf(),
    ensures
        r is Some <==> is_offsets(offsets.elements(), ptype, max as int),
        r is Some ==> r->Some_0@.len() == offsets.elements().len() && forall|i: int|
            0 <= i < r->Some_0@.len() ==> (#[trigger] r->Some_0@[i]) == offsets.elements()[i]->Primitive_0,
{
    let n = offsets.len();
    if n == 0 {
        return None;
    }
    let ghost e = offsets.elements();
    let mut out: Vec<usize> = Vec::new();
    let mut i: usize = 0;
    while i < n
        invariant
            offsets.wf(),
            e == offsets.elements(),
            n == e.len(),
            i <= n,
            out@.len() == i,
            forall|j: int| 0 <= j < i ==> (#[trigger] e[j]) is Primitive && 0 <= e[j]->Primitive_0
                <= usize::MAX && ptype.holds(e[j]->Primitive_0),
            forall|j: int| 0 <= j < i ==> (#[trigger] out@[j]) == e[j]->Primitive_0,
            forall|j: int| 0 < j < i ==> out@[j - 1] <= #[trigger] out@[j],
        decreases n - i,
    {
        let v = value_at(offsets, i);
        match &v.0 {
            InnerScalarValue::Primitive(x) => {
                if *x < 0 || *x > usize::MAX as i128 || !ptype.in_range(*x) {
                    return None;
                }
                let o = *x as usize;
                if i > 0 && out[i - 1] > o {
                    proof {
                        if is_offsets(e, ptype, max as int) {
                            assert(e[i - 1]->Primitive_0 <= e[i as int]->Primitive_0);
                        }
                    }
                    return None;
                }
                out.push(o);
            },
            _ => {
                return None;
            },
        }
        i += 1;
    }
    if out[n - 1] > max {
        return None;
    }
    proof {
        assert forall|a: int, b: int| 0 <= a <= b < n implies (#[trigger] e[a])->Primitive_0 <= (#[trigger] e[b])->Primitive_0 by {
            lemma_steps_non_decreasing(out@, a, b);
        }
    }
    Some(out)
}

proof fn lemma_steps_non_decreasing(s: Seq<usize>, a: int, b: int)
    requires
        forall|j: int| 0 < j < s.len() ==> s[j - 1] <= #[trigger] s[j],
        0 <= a <= b < s.len(),
    ensures
        s[a] <= s[b],
    decreases b - a,
{
    if a < b {
        lemma_steps_non_decreasing(s, a, b - 1);
    }
}

/// The bytes held by an array, if they are bytes.
fn read_bytes(bytes: &ArrayData) -> (r: Option<Vec<u8>>)
    requires
        bytes.wf(),
    ensures
        r is Some <==> is_bytes(bytes.elements()),
        r is Some ==> r->Some_0@.len() == bytes.elements().len() && forall|i: int|
            0 <= i < r->Some_0@.len() ==> (#[trigger] r->Some_0@[i]) == bytes.elements()[i]->Primitive_0,
{
    let n = bytes.len();
    let ghost e = bytes.elements();
    let mut out: Vec<u8> = Vec::new();
    let mut i: usize = 0;
    while i < n
        invariant
            bytes.wf(),
            e == bytes.elements(),
            n == e.len(),
            i <= n,
            out@.len() == i,
            forall|j: int| 0 <= j < i ==> (#[trigger] e[j]) is Primitive && 0 <= e[j]->Primitive_0 <= 255,
            forall|j: int| 0 <= j < i ==> (#[trigger] out@[j]) == e[j]->Primitive_0,
        decreases n - i,
    {
        let v = value_at(bytes, i);
        match &v.0 {
            InnerScalarValue::Primitive(x) => {
                if *x < 0 || *x > 255 {
                    return None;
                }
                out.push(*x as u8);
            },
            _ => {
                return None;
            },
        }
        i += 1;
    }
    Some(out)
}

/// The values as a primitive array of the given unsigned ptype, none null.
fn primitive_of_usizes(values: &Vec<usize>, ptype: PType) -> (r: PrimitiveArray)
    requires
        forall|i: int| 0 <= i < values@.len() ==> ptype.holds(#[trigger] values@[i] as int),
    ensures
        r.wf(),
        r.ptype == ptype,
        r.validity is NonNullable,
        r.values@.len() == values@.len(),
        forall|i: int| 0 <= i < values@.len() ==> (#[trigger] r.values@[i]) == values@[i],
{
    let mut out: Vec<i128> = Vec::new();
    let mut i: usize = 0;
    while i < values.len()
        invariant
            i <= values@.len(),
            out@.len() == i,
            forall|j: int| 0 <= j < i ==> (#[trigger] out@[j]) == values@[j],
        decreases values@.len() - i,
    {
        out.push(values[i] as i128);
        i += 1;
    }
    let r = PrimitiveArray { ptype, values: out, validity: Validity::NonNullable };
    proof {
        assert forall|i: int| 0 <= i < r.values@.len() implies r.ptype.holds(#[trigger] r.values@[i] as int) by {
            assert(ptype.holds(values@[i] as int));
        }
    }
    r
}

/// The bytes as a primitive `u8` array, none null.
fn primitive_of_bytes(bytes: &Vec<u8>) -> (r: PrimitiveArray)
    ensures
        r.wf(),
        r.ptype == PType::U8,
        r.validity is NonNullable,
        r.values@.len() == bytes@.len(),
        forall|i: int| 0 <= i < bytes@.len() ==> (#[trigger] r.values@[i]) == bytes@[i],
{
    let mut out: Vec<i128> = Vec::new();
    let mut i: usize = 0;
    while i < bytes.len()
        invariant
            i <= bytes@.len(),
            out@.len() == i,
            forall|j: int| 0 <= j < i ==> (#[trigger] out@[j]) == bytes@[j],
        decreases bytes@.len() - i,
    {
        out.push(bytes[i] as i128);
        i += 1;
    }
    PrimitiveArray { ptype: PType::U8, values: out, validity: Validity::NonNullable }
}

/// The scalar of a UTF-8 or binary dtype that holds the given bytes.
pub fn varbin_scalar(value: Vec<u8>, dtype: &DType) -> (r: Scalar)
    ensures
        r@ == (ScalarView { dtype: dtype@, value: Datum::Bytes(value@) }),
{
    Scalar { dtype: dtype.clone(), value: ScalarValue::buffer(value) }
}

impl VarBinArray {
    /// Builds a varbin array from its parts. The dtypes are checked first: offsets must be
    /// non-nullable integers, bytes non-nullable `u8`, and the array UTF-8 or binary, else
    /// `MismatchedTypes`. Then the validity must match the dtype's nullability and the
    /// array's length, and the offsets must be offsets into the bytes, else
    /// `InvalidArgument`.
    #[verifier::rlimit(40)]
    pub fn try_new(offsets: ArrayData, bytes: ArrayData, dtype: DType, validity: Validity) -> (r:
        Result<VarBinArray, VortexError>)
        requires
            offsets.wf(),
            bytes.wf(),
        ensures
            !varbin_types_ok(offsets.dtype_spec(), bytes.dtype_spec(), dtype@) ==> r == Err::<
                VarBinArray,
                VortexError,
            >(VortexError::MismatchedTypes),
            varbin_types_ok(offsets.dtype_spec(), bytes.dtype_spec(), dtype@) ==> (r is Ok <==> {
                &&& dtype@.is_nullable() != (validity is NonNullable)
                &&& is_bytes(bytes.elements())
                &&& is_offsets(
                    offsets.elements(),
                    ptype_of_int(offsets.dtype_spec()),
                    bytes.elements().len() as int,
                )
                &&& validity.wf(offsets.elements().len() - 1)
            }),
            varbin_types_ok(offsets.dtype_spec(), bytes.dtype_spec(), dtype@) && r is Err ==> r->Err_0
                == VortexError::InvalidArgument,
            r is Ok ==> {
                let a = r->Ok_0;
                &&& a.wf()
                &&& a.dtype@ == dtype@
                &&& a.validity == validity
                &&& a.offsets@.len() == offsets.elements().len()
                &&& forall|i: int| 0 <= i < a.offsets@.len() ==> (#[trigger] a.offsets@[i]) == offsets.elements()[i]->Primitive_0
                &&& a.bytes@.len() == bytes.elements().len()
                &&& forall|i: int| 0 <= i < a.bytes@.len() ==> (#[trigger] a.bytes@[i]) == bytes.elements()[i]->Primitive_0
            },
    {
        let offsets_dtype = offsets.dtype();
        if !offsets_dtype.is_int() || offsets_dtype.is_nullable() {
            return Err(VortexError::MismatchedTypes);
        }
        let offsets_ptype = match &offsets_dtype {
            DType::Primitive(p, _) => *p,
            _ => PType::U64,
        };
        let bytes_dtype = bytes.dtype();
        if !bytes_dtype.eq(&DType::bytes()) {
            return Err(VortexError::MismatchedTypes);
        }
        match &dtype {
            DType::Binary(_) | DType::Utf8(_) => {},
            _ => {
                return Err(VortexError::MismatchedTypes);
            },
        }
        let non_nullable = match &validity {
            Validity::NonNullable => true,
            _ => false,
        };
        if dtype.is_nullable() == non_nullable {
            return Err(VortexError::InvalidArgument);
        }
        let data = match read_bytes(&bytes) {
            Some(b) => b,
            None => {
                return Err(VortexError::InvalidArgument);
            },
        };
        let offs = match read_offsets(&offsets, offsets_ptype, data.len()) {
            Some(o) => o,
            None => {
                return Err(VortexError::InvalidArgument);
            },
        };
        let length = offs.len() - 1;
        match &validity {
            Validity::Array(v) => {
                if v.len() != length {
                    return Err(VortexError::InvalidArgument);
                }
            },
            _ => {},
        }
        let r = VarBinArray { dtype, offsets_ptype, offsets: offs, bytes: data, validity };
        proof {
            let e = offsets.elements();
            assert forall|i: int, j: int| 0 <= i <= j < r.offsets@.len() implies r.offsets@[i] <= r.offsets@[j] by {
                assert(e[i]->Primitive_0 <= e[j]->Primitive_0);
            }
            assert forall|i: int| 0 <= i < r.offsets@.len() implies r.offsets_ptype.holds(#[trigger] r.offsets@[i] as int) by {
                assert(e[i] is Primitive);
            }
        }
        Ok(r)
    }

    /// The offsets as an array: non-nullable integers of the offsets ptype, one more than
    /// there are elements.
    pub fn offsets(&self) -> (r: ArrayData)
        requires
            self.wf(),
        ensures
            r.wf(),
            r.dtype_spec() == DTypeView::Primitive(self.offsets_ptype, Nullability::NonNullable),
            r.elements().len() == self.offsets@.len(),
            forall|i: int| 0 <= i < self.offsets@.len() ==> #[trigger] r.elements()[i] == Datum::Primitive(
                self.offsets@[i] as int,
            ),
    {
        let p = primitive_of_usizes(&self.offsets, self.offsets_ptype);
        ArrayData::Primitive(p)
    }

    /// The first offset.
    pub fn first_offset(&self) -> (r: usize)
        requires
            self.wf(),
        ensures
            r == self.offsets@[0],
    {
        self.offsets[0]
    }

    /// The bytes as an array of non-nullable `u8`. A slice keeps the bytes of the array it
    /// was cut from, so there may be more than the elements use.
    pub fn bytes(&self) -> (r: ArrayData)
        ensures
            r.wf(),
            r.dtype_spec() == DTypeView::bytes(),
            r.elements().len() == self.bytes@.len(),
            forall|i: int| 0 <= i < self.bytes@.len() ==> #[trigger] r.elements()[i] == Datum::Primitive(
                self.bytes@[i] as int,
            ),
    {
        let p = primitive_of_bytes(&self.bytes);
        ArrayData::Primitive(p)
    }

    /// The validity of the elements.
    pub fn validity(&self) -> (r: Validity)
        ensures
            r.spec_nullability() == self.validity.spec_nullability(),
            r is Array == self.validity is Array,
            forall|len: int| r.wf(len) == self.validity.wf(len),
            forall|i: int| r.valid_at(i) == self.validity.valid_at(i),
    {
        self.validity.clone()
    }

    /// The bytes that the elements use: from the first offset to the last.
    pub fn sliced_bytes(&self) -> (r: Result<ArrayData, VortexError>)
        requires
            self.wf(),
        ensures
            r is Ok,
            r->Ok_0.wf(),
            r->Ok_0.dtype_spec() == DTypeView::bytes(),
            r->Ok_0.elements().len() == self.offsets@[self.offsets@.len() - 1] - self.offsets@[0],
            forall|i: int| 0 <= i < r->Ok_0.elements().len() ==> #[trigger] r->Ok_0.elements()[i]
                == Datum::Primitive(self.bytes@[self.offsets@[0] + i] as int),
    {
        let first_offset = self.offsets[0];
        let last_offset = self.offsets[self.offsets.len() - 1];
        assert(self.offsets@[0] <= self.offsets@[self.offsets@.len() - 1]);
        let cut = copy_range(&self.bytes, first_offset, last_offset);
        let p = primitive_of_bytes(&cut);
        Ok(ArrayData::Primitive(p))
    }

    /// Offset `index`.
    pub fn offset_at(&self, index: usize) -> (r: usize)
        requires
            self.wf(),
            index < self.offsets@.len(),
        ensures
            r == self.offsets@[index as int],
    {
        self.offsets[index]
    }

    /// The bytes of element `index`, valid or not. An index at or past the length is
    /// refused with `InvalidArgument`.
    pub fn bytes_at(&self, index: usize) -> (r: Result<Vec<u8>, VortexError>)
        requires
            self.wf(),
        ensures
            r is Ok <==> index < self.offsets@.len() - 1,
            r is Ok ==> r->Ok_0@ == self.bytes_of(index as int),
            r is Err ==> r->Err_0 == VortexError::InvalidArgument,
    {
        let n = self.offsets.len();
        if index >= n - 1 {
            return Err(VortexError::InvalidArgument);
        }
        let start = self.offset_at(index);
        let end = self.offset_at(index + 1);
        assert(self.offsets@[index as int] <= self.offsets@[index + 1]);
        assert(self.offsets@[index + 1] <= self.offsets@[n - 1]);
        Ok(copy_range(&self.bytes, start, end))
    }

    /// The dtype, the bytes, the offsets and the validity, the array given up.
    pub fn into_parts(self) -> (r: (DType, ArrayData, ArrayData, Validity))
        requires
            self.wf(),
        ensures
            r.0 == self.dtype,
            r.1.wf() && r.1.dtype_spec() == DTypeView::bytes() && r.1.elements().len() == self.bytes@.len(),
            forall|i: int| 0 <= i < self.bytes@.len() ==> #[trigger] r.1.elements()[i] == Datum::Primitive(
                self.bytes@[i] as int,
            ),
            r.2.wf() && r.2.elements().len() == self.offsets@.len(),
            forall|i: int| 0 <= i < self.offsets@.len() ==> #[trigger] r.2.elements()[i] == Datum::Primitive(
                self.offsets@[i] as int,
            ),
            r.3 == self.validity,
    {
        let bytes = self.bytes();
        let offsets = self.offsets();
        (self.dtype, bytes, offsets, self.validity)
    }

    /// One element per byte string, none null. Offsets are `u32` where the bytes number
    /// fewer than `u32::MAX`, else `u64`. The dtype must be UTF-8 or binary for the result
    /// to be well formed.
    pub fn from_vec(vec: Vec<Vec<u8>>, dtype: DType) -> (r: VarBinArray)
        ensures
            r.dtype@ == dtype@,
            dtype@ is Utf8 || dtype@ is Binary ==> r.wf(),
            r.elements().len() == vec@.len(),
            forall|i: int| 0 <= i < vec@.len() ==> #[trigger] r.elements()[i] == Datum::Bytes(vec@[i]@),
            r.offsets_ptype == PType::U32 || r.offsets_ptype == PType::U64,
            r.offsets_ptype == PType::U32 <==> r.bytes@.len() < 0xffff_ffff,
            r.validity is NonNullable || r.validity is AllValid,
    {
        let mut size: usize = 0;
        let mut fits = true;
        let mut i: usize = 0;
        while i < vec.len()
            invariant
                i <= vec@.len(),
                fits ==> size == total_bytes(vec@, i as int),
                !fits ==> total_bytes(vec@, i as int) > usize::MAX,
            decreases vec@.len() - i,
        {
            let len = vec[i].len();
            if len > usize::MAX - size {
                fits = false;
            } else {
                size = size + len;
            }
            i += 1;
        }
        if fits && size < 0xffff_ffff {
            Self::from_vec_sized(PType::U32, vec, dtype)
        } else {
            Self::from_vec_sized(PType::U64, vec, dtype)
        }
    }

    /// One element per byte string, none null, with offsets of the given ptype, or of `u64`
    /// where the bytes do not fit it.
    fn from_vec_sized(ptype: PType, vec: Vec<Vec<u8>>, dtype: DType) -> (r: VarBinArray)
        requires
            ptype.spec_is_int(),
        ensures
            r.dtype@ == dtype@,
            dtype@ is Utf8 || dtype@ is Binary ==> r.wf(),
            r.elements().len() == vec@.len(),
            forall|i: int| 0 <= i < vec@.len() ==> #[trigger] r.elements()[i] == Datum::Bytes(vec@[i]@),
            r.bytes@.len() == total_bytes(vec@, vec@.len() as int),
            r.offsets_ptype == (if ptype.holds(r.bytes@.len() as int) {
                ptype
            } else {
                PType::U64
            }),
            r.validity is NonNullable || r.validity is AllValid,
    {
        let mut offsets: Vec<usize> = Vec::new();
        let mut bytes: Vec<u8> = Vec::new();
        offsets.push(0);
        let mut k: usize = 0;
        while k < vec.len()
            invariant
                k <= vec@.len(),
                offsets@.len() == k + 1,
                offsets@[k as int] == bytes@.len(),
                bytes@.len() == total_bytes(vec@, k as int),
                non_decreasing(offsets@),
                forall|j: int| 0 <= j < k ==> bytes@.subrange(#[trigger] offsets@[j] as int, offsets@[j + 1] as int) == vec@[j]@,
            decreases vec@.len() - k,
        {
            let ghost old_bytes = bytes@;
            let ghost old_offsets = offsets@;
            let v = &vec[k];
            append_range(&mut bytes, v, 0, v.len());
            offsets.push(bytes.len());
            proof {
                assert(v@.subrange(0, v@.len() as int) =~= v@);
                lemma_append_element(old_offsets, old_bytes, v@, offsets@, bytes@);
            }
            k += 1;
        }
        let validity = Validity::all_valid(dtype.nullability());
        assert(validity.valid_at(0));
        let out_ptype = offsets_ptype_for(ptype, bytes.len());
        let r = VarBinArray { dtype, offsets_ptype: out_ptype, offsets, bytes, validity };
        proof {
            assert forall|i: int| 0 <= i < r.offsets@.len() implies r.offsets_ptype.holds(#[trigger] r.offsets@[i] as int) by {
                assert(r.offsets@[i] <= r.offsets@[r.offsets@.len() - 1]);
            }
        }
        r
    }

    /// One element per item, `None` a null. A null in an array whose dtype is not nullable
    /// is not allowed.
    pub fn from_iter(iter: Vec<Option<Vec<u8>>>, dtype: DType) -> (r: VarBinArray)
        requires
            dtype@.is_nullable() || forall|i: int| 0 <= i < iter@.len() ==> (#[trigger] iter@[i]) is Some,
        ensures
            r.dtype@ == dtype@,
            dtype@ is Utf8 || dtype@ is Binary ==> r.wf(),
            r.elements().len() == iter@.len(),
            forall|i: int| 0 <= i < iter@.len() ==> #[trigger] r.elements()[i] == (match iter@[i] {
                Some(v) => Datum::Bytes(v@),
                None => Datum::Null,
            }),
    {
        let mut offsets: Vec<usize> = Vec::new();
        let mut bytes: Vec<u8> = Vec::new();
        let mut valid: Vec<bool> = Vec::new();
        offsets.push(0);
        let mut k: usize = 0;
        while k < iter.len()
            invariant
                k <= iter@.len(),
                offsets@.len() == k + 1,
                valid@.len() == k,
                offsets@[k as int] == bytes@.len(),
                non_decreasing(offsets@),
                forall|j: int| 0 <= j < k ==> #[trigger] valid@[j] == (iter@[j] is Some),
                forall|j: int| 0 <= j < k && iter@[j] is Some ==> bytes@.subrange(#[trigger] offsets@[j] as int, offsets@[j + 1] as int) == iter@[j]->Some_0@,
            decreases iter@.len() - k,
        {
            let ghost old_bytes = bytes@;
            let ghost old_offsets = offsets@;
            match &iter[k] {
                Some(v) => {
                    append_range(&mut bytes, v, 0, v.len());
                    valid.push(true);
                    offsets.push(bytes.len());
                    proof {
                        assert(v@.subrange(0, v@.len() as int) =~= v@);
                        lemma_append_element(old_offsets, old_bytes, v@, offsets@, bytes@);
                    }
                },
                None => {
                    valid.push(false);
                    offsets.push(bytes.len());
                    proof {
                        assert(bytes@ =~= old_bytes + Seq::<u8>::empty());
                        lemma_append_element(old_offsets, old_bytes, Seq::<u8>::empty(), offsets@, bytes@);
                    }
                },
            }
            k += 1;
        }
        let validity = if dtype.is_nullable() {
            Validity::Array(valid)
        } else {
            Validity::NonNullable
        };
        let out_ptype = offsets_ptype_for(PType::U32, bytes.len());
        let r = VarBinArray { dtype, offsets_ptype: out_ptype, offsets, bytes, validity };
        proof {
            assert forall|i: int| 0 <= i < r.offsets@.len() implies r.offsets_ptype.holds(#[trigger] r.offsets@[i] as int) by {
                assert(r.offsets@[i] <= r.offsets@[r.offsets@.len() - 1]);
            }
        }
        r
    }

    /// One element per byte string, none null, with `u32` offsets where the bytes fit.
    pub fn from_iter_nonnull(iter: Vec<Vec<u8>>, dtype: DType) -> (r: VarBinArray)
        ensures
            r.dtype@ == dtype@,
            dtype@ is Utf8 || dtype@ is Binary ==> r.wf(),
            r.elements().len() == iter@.len(),
            forall|i: int| 0 <= i < iter@.len() ==> #[trigger] r.elements()[i] == Datum::Bytes(iter@[i]@),
    {
        Self::from_vec_sized(PType::U32, iter, dtype)
    }

    pub fn into_array(self) -> (r: ArrayData)
        ensures r == ArrayData::VarBin(self),
    {
        ArrayData::VarBin(self)
    }
}

/// The number of bytes of the first `n` byte strings.
pub open spec fn total_bytes(values: Seq<Vec<u8>>, n: int) -> int
    decreases n,
{
    if n <= 0 || n > values.len() {
        0
    } else {
        total_bytes(values, n - 1) + values[n - 1]@.len()
    }
}

/// The ptype of an integer dtype.
pub open spec fn ptype_of_int(dtype: DTypeView) -> PType {
    match dtype {
        DTypeView::Primitive(p, _) => p,
        _ => PType::U64,
    }
}

} // verus!
