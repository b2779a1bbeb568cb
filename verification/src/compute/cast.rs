//! Casting an array to another dtype of the same kind.

use vstd::prelude::*;

use crate::array::{concat_elements, ArrayData, BoolArray, ChunkedArray, PrimitiveArray};
use crate::compute::slice::lemma_concat_push;
use crate::dtype::{DType, DTypeView, Nullability};
use crate::error::VortexError;
use crate::scalar::Datum;
use crate::validity::Validity;

verus! {

/// Whether a dtype admits every element as it stands: nulls only where it is nullable, and
/// primitive values only within its ptype's range.
pub open spec fn fits(elements: Seq<Datum>, to: DTypeView) -> bool {
    forall|i: int| 0 <= i < elements.len() ==> match #[trigger] elements[i] {
        Datum::Null => to.is_nullable(),
        Datum::Primitive(v) => to is Primitive ==> to->Primitive_0.holds(v),
        _ => true,
    }
}

/// Whether an array can be cast to a dtype, and if not, why. An array of that dtype
/// already can. A primitive array of integers can be cast to another integer ptype, and a
/// boolean array to the other nullability, when the dtype admits its elements: else
/// `InvalidArgument`. Chunks are cast one by one, and the first that cannot be cast decides.
/// Nothing else is supported.
pub open spec fn cast_check(a: ArrayData, to: DTypeView) -> Result<(), VortexError>
    decreases a, 0int,
{
    match a {
        ArrayData::Chunked(c) => chunks_check(c.chunks@, to, 0),
        other => if other.dtype_spec() == to {
            Ok(())
        } else {
            match other {
                ArrayData::Primitive(p) => if p.ptype.spec_is_int() && to is Primitive
                    && to->Primitive_0.spec_is_int() {
                    if fits(p.elements(), to) {
                        Ok(())
                    } else {
                        Err(VortexError::InvalidArgument)
                    }
                } else {
                    Err(VortexError::Unsupported)
                },
                ArrayData::Bool(b) => if to is Bool {
                    if fits(b.elements(), to) {
                        Ok(())
                    } else {
                        Err(VortexError::InvalidArgument)
                    }
                } else {
                    Err(VortexError::Unsupported)
                },
                _ => Err(VortexError::Unsupported),
            }
        },
    }
}

/// Whether the chunks from `k` on can be cast, and if not, why the first of them cannot.
pub open spec fn chunks_check(chunks: Seq<ArrayData>, to: DTypeView, k: int) -> Result<(), VortexError>
    decreases chunks, chunks.len() - k,
{
    if k < 0 || k >= chunks.len() {
        Ok(())
    } else {
        match cast_check(chunks[k], to) {
            Ok(_) => chunks_check(chunks, to, k + 1),
            Err(e) => Err(e),
        }
    }
}

/// The validity of an array none of whose elements is null, under another nullability.
#[verifier::loop_isolation(false)]
fn revalidate(validity: &Validity, len: usize, to: Nullability) -> (r: Option<Validity>)
    requires
        validity.wf(len as int),
    ensures
        r is Some <==> to == Nullability::Nullable || forall|i: int| 0 <= i < len ==> validity.valid_at(i),
        r is Some ==> r->Some_0.wf(len as int) && r->Some_0.spec_nullability() == to && forall|i: int|
            0 <= i < len ==> r->Some_0.valid_at(i) == validity.valid_at(i),
{
    match to {
        Nullability::Nullable => match validity {
            Validity::NonNullable => Some(Validity::AllValid),
            v => Some(v.clone()),
        },
        Nullability::NonNullable => {
            let flags = validity.to_bools(len);
            let mut i: usize = 0;
            while i < len
                invariant
                    i <= len,
                    flags@ == validity.bits(len as int),
                    forall|j: int| 0 <= j < i ==> validity.valid_at(j),
                decreases len - i,
            {
                if !flags[i] {
                    assert(flags@[i as int] == validity.bits(len as int)[i as int]);
                    assert(!validity.valid_at(i as int));
                    return None;
                }
                i += 1;
            }
            Some(Validity::NonNullable)
        },
    }
}

/// Casts an array to `dtype`: the same elements under the other dtype.
#[verifier::loop_isolation(false)]
#[verifier::rlimit(40)]
pub fn try_cast(array: &ArrayData, dtype: &DType) -> (r: Result<ArrayData, VortexError>)
    requires
        array.wf(),
    ensures
        match cast_check(*array, dtype@) {
            Ok(_) => r is Ok && r->Ok_0.wf() && r->Ok_0.dtype_spec() == dtype@ && r->Ok_0.elements()
                == array.elements(),
            Err(e) => r == Err::<ArrayData, VortexError>(e),
        },
    decreases array, 1int,
{
    match array {
        ArrayData::Chunked(c) => c.cast(dtype),
        _ => {
            let from = array.dtype();
            if from.eq(dtype) {
                return Ok(array.clone());
            }
            match (array, dtype) {
                (ArrayData::Primitive(p), DType::Primitive(q, n)) => {
                    if !p.ptype.is_int() || !q.is_int() {
                        return Err(VortexError::Unsupported);
                    }
                    let len = p.values.len();
                    let validity = match revalidate(&p.validity, len, *n) {
                        Some(v) => v,
                        None => {
                            proof {
                                let i = choose|i: int| 0 <= i < len && !p.validity.valid_at(i);
                                assert(p.elements()[i] == Datum::Null);
                                assert(!fits(p.elements(), dtype@));
                            }
                            return Err(VortexError::InvalidArgument);
                        },
                    };
                    let mut values: Vec<i128> = Vec::new();
                    let mut i: usize = 0;
                    while i < len
                        invariant
                            p.wf(),
                            len == p.values@.len(),
                            i <= len,
                            values@.len() == i,
                            forall|j: int| 0 <= j < i ==> q.holds(#[trigger] values@[j] as int),
                            forall|j: int| 0 <= j < i && p.validity.valid_at(j) ==> (#[trigger] values@[j]) == p.values@[j],
                        decreases len - i,
                    {
                        let v = p.values[i];
                        if q.in_range(v) {
                            values.push(v);
                        } else if p.validity.is_valid(i) {
                            proof {
                                assert(p.elements()[i as int] == Datum::Primitive(v as int));
                                assert(!q.holds(v as int));
                                assert(!fits(p.elements(), dtype@));
                            }
                            return Err(VortexError::InvalidArgument);
                        } else {
                            values.push(0);
                        }
                        i += 1;
                    }
                    let r = PrimitiveArray { ptype: *q, values, validity };
                    proof {
                        assert(r.elements() =~= p.elements());
                        assert forall|j: int| 0 <= j < p.elements().len() implies match #[trigger] p.elements()[j] {
                            Datum::Null => dtype@.is_nullable(),
                            Datum::Primitive(v) => dtype@ is Primitive ==> dtype@->Primitive_0.holds(v),
                            _ => true,
                        } by {
                            if p.validity.valid_at(j) {
                                assert(q.holds(values@[j] as int));
                            }
                        }
                    }
                    Ok(ArrayData::Primitive(r))
                },
                (ArrayData::Primitive(_), _) => Err(VortexError::Unsupported),
                (ArrayData::Bool(b), DType::Bool(n)) => {
                    let len = b.values.len();
                    let validity = match revalidate(&b.validity, len, *n) {
                        Some(v) => v,
                        None => {
                            proof {
                                let i = choose|i: int| 0 <= i < len && !b.validity.valid_at(i);
                                assert(b.elements()[i] == Datum::Null);
                                assert(!fits(b.elements(), dtype@));
                            }
                            return Err(VortexError::InvalidArgument);
                        },
                    };
                    let r = BoolArray { values: b.values.clone(), validity };
                    proof {
                        assert(r.elements() =~= b.elements());
                        assert forall|j: int| 0 <= j < b.elements().len() implies match #[trigger] b.elements()[j] {
                            Datum::Null => dtype@.is_nullable(),
                            Datum::Primitive(v) => dtype@ is Primitive ==> dtype@->Primitive_0.holds(v),
                            _ => true,
                        } by {}
                    }
                    Ok(ArrayData::Bool(r))
                },
                _ => Err(VortexError::Unsupported),
            }
        },
    }
}

impl ChunkedArray {
    /// Casts a chunked array chunk by chunk. The first chunk that cannot be cast fails the
    /// cast with its error.
    pub fn cast(&self, dtype: &DType) -> (r: Result<ArrayData, VortexError>)
        requires
            self.wf(),
        ensures
            match chunks_check(self.chunks@, dtype@, 0) {
                Ok(_) => r is Ok && r->Ok_0.wf() && r->Ok_0 is Chunked && r->Ok_0.dtype_spec()
                    == dtype@ && r->Ok_0.elements() == self.elements(),
                Err(e) => r == Err::<ArrayData, VortexError>(e),
            },
        decreases self, 0int,
    {
        let n = self.chunks.len();
        let mut cast_chunks: Vec<ArrayData> = Vec::new();
        let mut k: usize = 0;
        while k < n
            invariant
                self.wf(),
                n == self.chunks@.len(),
                k <= n,
                cast_chunks@.len() == k,
                chunks_check(self.chunks@, dtype@, 0) == chunks_check(self.chunks@, dtype@, k as int),
                concat_elements(cast_chunks@, k as int) == concat_elements(self.chunks@, k as int),
                forall|j: int| 0 <= j < k ==> (#[trigger] cast_chunks@[j]).wf(),
                forall|j: int| 0 <= j < k ==> (#[trigger] cast_chunks@[j]).dtype_spec() == dtype@,
            decreases n - k,
        {
            proof {
                vstd::std_specs::vec::axiom_vec_index_decreases(self.chunks, k as int);
                assert(decreases_to!(*self => self.chunks));
                assert(self.chunks@[k as int].wf());
            }
            match try_cast(&self.chunks[k], dtype) {
                Ok(c) => {
                    proof {
                        lemma_concat_push(cast_chunks@, c);
                    }
                    cast_chunks.push(c);
                },
                Err(e) => {
                    return Err(e);
                },
            }
            k += 1;
        }
        proof {
            assert(self.chunk_ends@[n as int] == concat_elements(self.chunks@, n as int).len());
        }
        Ok(ArrayData::Chunked(ChunkedArray::from_chunks(cast_chunks, dtype.clone())))
    }
}

} // verus!
