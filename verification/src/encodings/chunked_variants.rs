//! A chunked array as a struct or an extension array: its fields, projections and storage
//! are those of its chunks, laid end to end.

use vstd::prelude::*;

use crate::array::{concat_elements, present, ArrayData, ChunkedArray, StructArray};
use crate::compute::slice::lemma_concat_push;
use crate::dtype::{
    dtypes_view, fields_view, lemma_resolve_bounds, names_view, resolve_field, DType, DTypeView,
    Field, FieldView,
};
use crate::error::VortexError;
use crate::scalar::Datum;

verus! {

/// The elements of field `idx` of an array that is a struct array or chunks of such.
pub open spec fn field_elements(a: ArrayData, idx: int) -> Option<Seq<Datum>>
    decreases a, 0int,
{
    match a {
        ArrayData::Struct(s) => if 0 <= idx < s.fields@.len() {
            Some(s.fields@[idx].elements())
        } else {
            None
        },
        ArrayData::Chunked(c) => fields_concat(c.chunks@, idx, c.chunks@.len() as int),
        _ => None,
    }
}

/// The elements of field `idx` of the first `n` chunks, laid end to end.
pub open spec fn fields_concat(chunks: Seq<ArrayData>, idx: int, n: int) -> Option<Seq<Datum>>
    decreases chunks, n,
{
    if n <= 0 || n > chunks.len() {
        Some(Seq::empty())
    } else {
        match (fields_concat(chunks, idx, n - 1), field_elements(chunks[n - 1], idx)) {
            (Some(a), Some(b)) => Some(a + b),
            _ => None,
        }
    }
}

/// The rows of a struct array with only the fields at `idxs`, in that order.
pub open spec fn projected_rows(s: StructArray, idxs: Seq<int>) -> Seq<Datum> {
    Seq::new(
        s.len as nat,
        |i: int|
            present(
                s.validity.valid_at(i),
                Datum::List(Seq::new(idxs.len(), |k: int| s.fields@[idxs[k]].elements()[i])),
            ),
    )
}

/// The rows of an array that is a struct array or chunks of such, with only the fields at
/// `idxs`.
pub open spec fn projected_elements(a: ArrayData, idxs: Seq<int>) -> Option<Seq<Datum>>
    decreases a, 0int,
{
    match a {
        ArrayData::Struct(s) => Some(projected_rows(s, idxs)),
        ArrayData::Chunked(c) => projections_concat(c.chunks@, idxs, c.chunks@.len() as int),
        _ => None,
    }
}

/// The projected rows of the first `n` chunks, laid end to end.
pub open spec fn projections_concat(chunks: Seq<ArrayData>, idxs: Seq<int>, n: int) -> Option<
    Seq<Datum>,
>
    decreases chunks, n,
{
    if n <= 0 || n > chunks.len() {
        Some(Seq::empty())
    } else {
        match (projections_concat(chunks, idxs, n - 1), projected_elements(chunks[n - 1], idxs)) {
            (Some(a), Some(b)) => Some(a + b),
            _ => None,
        }
    }
}

/// Whether an array is an extension array or chunks of such.
pub open spec fn has_storage(a: ArrayData) -> bool
    decreases a,
{
    match a {
        ArrayData::Extension(_) => true,
        ArrayData::Chunked(c) => c.chunks@.len() > 0 && forall|k: int| 0 <= k < c.chunks@.len() ==> has_storage(#[trigger] c.chunks@[k]),
        _ => false,
    }
}

/// The positions of the projection's fields among the names.
pub open spec fn resolved(names: Seq<Seq<char>>, projection: Seq<FieldView>) -> Seq<int> {
    Seq::new(projection.len(), |k: int| resolve_field(names, projection[k])->Some_0)
}

/// Field `idx` of an array that is a struct array or chunks of such; `None` of any other,
/// or where there is no such field.
pub fn field_of(array: &ArrayData, idx: usize) -> (r: Option<ArrayData>)
    requires
        array.wf(),
        array.dtype_spec() is Struct,
    ensures
        r is Some <==> field_elements(*array, idx as int) is Some && idx < array.dtype_spec()->Struct_1.len(),
        r is Some ==> r->Some_0.wf() && r->Some_0.elements() == field_elements(*array, idx as int)->Some_0
            && r->Some_0.dtype_spec() == array.dtype_spec()->Struct_1[idx as int],
    decreases array, 1int,
{
    match array {
        ArrayData::Struct(s) => {
            let r = s.field(idx);
            proof {
                if idx < s.fields@.len() {
                    assert(s.fields@[idx as int].wf());
                    assert(crate::array::dtypes_of(s.fields@)[idx as int] == s.fields@[idx as int].dtype_spec());
                }
                assert(s.dtype@->Struct_1.len() == s.fields@.len());
            }
            r
        },
        ArrayData::Chunked(c) => c.field(idx),
        _ => None,
    }
}

impl ChunkedArray {
    /// Field `idx` of a chunked struct array: the chunks' fields, chunked. `None` where a
    /// chunk is not a struct array or chunks of such, or where there is no such field.
    #[verifier::rlimit(40)]
    pub fn field(&self, idx: usize) -> (r: Option<ArrayData>)
        requires
            self.wf(),
            self.dtype@ is Struct,
        ensures
            r is Some <==> fields_concat(self.chunks@, idx as int, self.chunks@.len() as int) is Some
                && idx < self.dtype@->Struct_1.len(),
            r is Some ==> r->Some_0.wf() && r->Some_0.elements() == fields_concat(
                self.chunks@,
                idx as int,
                self.chunks@.len() as int,
            )->Some_0 && r->Some_0.dtype_spec() == self.dtype@->Struct_1[idx as int],
        decreases self, 0int,
    {
        let n = self.chunks.len();
        let mut chunks: Vec<ArrayData> = Vec::new();
        let mut k: usize = 0;
        while k < n
            invariant
                self.wf(),
                self.dtype@ is Struct,
                n == self.chunks@.len(),
                k <= n,
                chunks@.len() == k,
                idx < self.dtype@->Struct_1.len() || k == 0,
                fields_concat(self.chunks@, idx as int, k as int) == Some(
                    concat_elements(chunks@, k as int),
                ),
                concat_elements(chunks@, k as int).len() == concat_elements(self.chunks@, k as int).len(),
                forall|j: int| 0 <= j < k ==> (#[trigger] chunks@[j]).wf(),
                forall|j: int| 0 <= j < k ==> (#[trigger] chunks@[j]).dtype_spec() == self.dtype@->Struct_1[idx as int],
            decreases n - k,
        {
            proof {
                vstd::std_specs::vec::axiom_vec_index_decreases(self.chunks, k as int);
                assert(decreases_to!(*self => self.chunks));
                assert(self.chunks@[k as int].wf());
                assert(self.chunks@[k as int].dtype_spec() == self.dtype@);
            }
            match field_of(&self.chunks[k], idx) {
                Some(c) => {
                    proof {
                        lemma_concat_push(chunks@, c);
                        lemma_field_len(self.chunks@[k as int], idx as int);
                    }
                    chunks.push(c);
                },
                None => {
                    proof {
                        if field_elements(self.chunks@[k as int], idx as int) is None {
                            lemma_fields_concat_none(self.chunks@, idx as int, k + 1, n as int);
                        }
                    }
                    return None;
                },
            }
            k += 1;
        }
        let projected_dtype = match &self.dtype {
            DType::Struct(s, _) => {
                if idx < s.dtypes.len() {
                    assert(dtypes_view(s.dtypes@)[idx as int] == s.dtypes@[idx as int]@);
                    s.dtypes[idx].clone()
                } else {
                    assert(dtypes_view(s.dtypes@).len() == s.dtypes@.len());
                    return None;
                }
            },
            _ => {
                return None;
            },
        };
        proof {
            assert(self.chunk_ends@[n as int] == concat_elements(self.chunks@, n as int).len());
        }
        Some(ArrayData::Chunked(ChunkedArray::from_chunks(chunks, projected_dtype)))
    }

    /// The storage of a chunked extension array: the chunks' storage arrays, chunked. It
    /// holds the elements that the array holds.
    pub fn storage_data(&self) -> (r: ArrayData)
        requires
            self.wf(),
            self.dtype@ is Extension,
            has_storage(ArrayData::Chunked(*self)),
        ensures
            r.wf(),
            r is Chunked,
            r.dtype_spec() == *self.dtype@->Extension_1,
            r.elements() == self.elements(),
        decreases self, 0int,
    {
        let n = self.chunks.len();
        let mut chunks: Vec<ArrayData> = Vec::new();
        let mut k: usize = 0;
        proof {
            vstd::std_specs::vec::axiom_vec_index_decreases(self.chunks, 0);
            assert(decreases_to!(*self => self.chunks));
            assert(self.chunks@[0].wf());
            assert(has_storage(self.chunks@[0]));
            assert(self.chunks@[0].dtype_spec() == self.dtype@);
        }
        let first_dtype = storage_of(&self.chunks[0]).dtype();
        while k < n
            invariant
                self.wf(),
                has_storage(ArrayData::Chunked(*self)),
                n == self.chunks@.len(),
                k <= n,
                chunks@.len() == k,
                self.dtype@ is Extension,
                first_dtype@ == *self.dtype@->Extension_1,
                concat_elements(chunks@, k as int) == concat_elements(self.chunks@, k as int),
                forall|j: int| 0 <= j < k ==> (#[trigger] chunks@[j]).wf(),
                forall|j: int| 0 <= j < k ==> (#[trigger] chunks@[j]).dtype_spec() == *self.dtype@->Extension_1,
            decreases n - k,
        {
            proof {
                vstd::std_specs::vec::axiom_vec_index_decreases(self.chunks, k as int);
                assert(decreases_to!(*self => self.chunks));
                assert(self.chunks@[k as int].wf());
                assert(has_storage(self.chunks@[k as int]));
                assert(self.chunks@[k as int].dtype_spec() == self.dtype@);
            }
            let c = storage_of(&self.chunks[k]);
            proof {
                lemma_concat_push(chunks@, c);
            }
            chunks.push(c);
            k += 1;
        }
        proof {
            assert(self.chunk_ends@[n as int] == concat_elements(self.chunks@, n as int).len());
        }
        match Self::chunk_ends_of(&chunks) {
            Some(chunk_ends) => Self::from_iter(chunks, chunk_ends),
            None => vstd::pervasive::unreached(),
        }
    }

    /// The chunks laid end to end under the dtype of the first, given where each begins
    /// and the last one ends.
    fn from_iter(chunks: Vec<ArrayData>, chunk_ends: Vec<u64>) -> (r: ArrayData)
        requires
            chunks@.len() > 0,
            forall|k: int| 0 <= k < chunks@.len() ==> (#[trigger] chunks@[k]).wf(),
            chunk_ends@.len() == chunks@.len() + 1,
            forall|j: int| 0 <= j <= chunks@.len() ==> (#[trigger] chunk_ends@[j]) == concat_elements(chunks@, j).len(),
            chunk_ends@[chunks@.len() as int] <= usize::MAX,
        ensures
            r is Chunked,
            r.elements() == concat_elements(chunks@, chunks@.len() as int),
            r->Chunked_0.chunks == chunks,
            (forall|k: int| 0 <= k < chunks@.len() ==> (#[trigger] chunks@[k]).dtype_spec() == chunks@[0].dtype_spec()) ==> r.wf(),
    {
        let dtype = chunks[0].dtype();
        ArrayData::Chunked(ChunkedArray { dtype, chunks, chunk_ends })
    }
}

/// The storage array of an extension array or of chunks of such.
pub fn storage_of(array: &ArrayData) -> (r: ArrayData)
    requires
        array.wf(),
        array.dtype_spec() is Extension,
        has_storage(*array),
    ensures
        r.wf(),
        r.dtype_spec() == *array.dtype_spec()->Extension_1,
        r.elements() == array.elements(),
    decreases array, 1int,
{
    match array {
        ArrayData::Extension(e) => (*e.storage).clone(),
        ArrayData::Chunked(c) => c.storage_data(),
        _ => vstd::pervasive::unreached(),
    }
}

/// A field of a well-formed struct array, or of chunks of such, has the array's length.
pub proof fn lemma_field_len(a: ArrayData, idx: int)
    requires
        a.wf(),
        field_elements(a, idx) is Some,
    ensures
        field_elements(a, idx)->Some_0.len() == a.elements().len(),
    decreases a, 1int,
{
    match a {
        ArrayData::Struct(s) => {},
        ArrayData::Chunked(c) => {
            lemma_fields_concat_len(c.chunks@, idx, c.chunks@.len() as int);
        },
        _ => {},
    }
}

/// The fields of well-formed chunks, laid end to end, are as long as the chunks.
pub proof fn lemma_fields_concat_len(chunks: Seq<ArrayData>, idx: int, n: int)
    requires
        0 <= n <= chunks.len(),
        forall|k: int| 0 <= k < chunks.len() ==> (#[trigger] chunks[k]).wf(),
        fields_concat(chunks, idx, n) is Some,
    ensures
        fields_concat(chunks, idx, n)->Some_0.len() == concat_elements(chunks, n).len(),
    decreases chunks, n,
{
    if n > 0 {
        lemma_fields_concat_len(chunks, idx, n - 1);
        lemma_field_len(chunks[n - 1], idx);
    }
}

/// Where the first `k` chunks have no such field, neither have the first `n`.
pub proof fn lemma_fields_concat_none(chunks: Seq<ArrayData>, idx: int, k: int, n: int)
    requires
        0 <= k <= n <= chunks.len(),
        fields_concat(chunks, idx, k) is None,
    ensures
        fields_concat(chunks, idx, n) is None,
    decreases n - k,
{
    if k < n {
        lemma_fields_concat_none(chunks, idx, k, n - 1);
    }
}

/// The dtype of a struct with only the fields at `idxs`, in that order.
pub open spec fn projected_dtype(d: DTypeView, idxs: Seq<int>) -> DTypeView {
    DTypeView::Struct(
        Seq::new(idxs.len(), |k: int| d->Struct_0[idxs[k]]),
        Seq::new(idxs.len(), |k: int| d->Struct_1[idxs[k]]),
        d->Struct_2,
    )
}

/// Whether every field of the projection is a field among the names.
pub open spec fn all_resolve(names: Seq<Seq<char>>, projection: Seq<FieldView>) -> bool {
    forall|k: int| 0 <= k < projection.len() ==> resolve_field(names, #[trigger] projection[k]) is Some
}

/// Where the first `k` chunks cannot be projected, neither can the first `n`.
pub proof fn lemma_projections_concat_none(chunks: Seq<ArrayData>, idxs: Seq<int>, k: int, n: int)
    requires
        0 <= k <= n <= chunks.len(),
        projections_concat(chunks, idxs, k) is None,
    ensures
        projections_concat(chunks, idxs, n) is None,
    decreases n - k,
{
    if k < n {
        lemma_projections_concat_none(chunks, idxs, k, n - 1);
    }
}

/// The projection of an array that is a struct array or chunks of such: the fields chosen,
/// in the projection's order. A field that the struct does not have is refused with
/// `InvalidArgument`, as is an array of another kind.
#[verifier::rlimit(40)]
pub fn project_of(array: &ArrayData, projection: &Vec<Field>) -> (r: Result<ArrayData, VortexError>)
    requires
        array.wf(),
        array.dtype_spec() is Struct,
    ensures
        r is Ok <==> all_resolve(array.dtype_spec()->Struct_0, fields_view(projection@))
            && array.dtype_spec()->Struct_0.len() == array.dtype_spec()->Struct_1.len()
            && projected_elements(
            *array,
            resolved(array.dtype_spec()->Struct_0, fields_view(projection@)),
        ) is Some,
        r is Err ==> r->Err_0 == VortexError::InvalidArgument,
        r is Ok ==> {
            let idxs = resolved(array.dtype_spec()->Struct_0, fields_view(projection@));
            &&& r->Ok_0.wf()
            &&& r->Ok_0.elements() == projected_elements(*array, idxs)->Some_0
            &&& r->Ok_0.elements().len() == array.elements().len()
            &&& r->Ok_0.dtype_spec() == projected_dtype(array.dtype_spec(), idxs)
        },
    decreases array, 1int,
{
    match array {
        ArrayData::Struct(s) => {
            let ghost names = s.dtype@->Struct_0;
            let ghost fv = fields_view(projection@);
            let ghost idxs = resolved(names, fv);
            proof {
                assert forall|k: int| 0 <= k < projection@.len() implies fv[k] == (#[trigger] projection@[k])@ by {}
                assert(s.dtype@->Struct_1.len() == s.fields@.len());
            }
            match s.project(projection) {
                Ok(p) => {
                    proof {
                        assert forall|k: int| 0 <= k < fv.len() implies resolve_field(names, #[trigger] fv[k]) is Some by {
                            assert(resolve_field(names, projection@[k]@) is Some);
                        }
                        p.lemma_elements();
                        assert forall|i: int| 0 <= i < s.len implies p.elements()[i] == projected_rows(*s, idxs)[i] by {
                            assert forall|k: int| 0 <= k < idxs.len() implies crate::array::struct_row(p.fields@, i)[k] == s.fields@[idxs[k]].elements()[i] by {
                                assert(p.fields@[k]@ == s.fields@[idxs[k]]@);
                            }
                            assert(crate::array::struct_row(p.fields@, i) =~= Seq::new(idxs.len(), |k: int| s.fields@[idxs[k]].elements()[i]));
                        }
                        assert(p.elements() =~= projected_rows(*s, idxs));
                        assert(s.dtype@->Struct_1 == crate::array::dtypes_of(s.fields@));
                        assert forall|k: int| 0 <= k < idxs.len() implies p.dtype@->Struct_1[k] == s.dtype@->Struct_1[idxs[k]] by {
                            assert(p.fields@[k]@ == s.fields@[idxs[k]]@);
                            assert(crate::array::dtypes_of(p.fields@)[k] == p.fields@[k].dtype_spec());
                            assert(crate::array::dtypes_of(s.fields@)[idxs[k]] == s.fields@[idxs[k]].dtype_spec());
                        }
                        assert forall|k: int| 0 <= k < idxs.len() implies p.dtype@->Struct_0[k] == s.dtype@->Struct_0[idxs[k]] by {
                            assert(p.fields@[k]@ == s.fields@[idxs[k]]@);
                        }
                        assert(p.dtype@->Struct_0.len() == p.fields@.len());
                        assert(p.dtype@->Struct_0 =~= projected_dtype(s.dtype@, idxs)->Struct_0);
                        assert(p.dtype@->Struct_1 =~= projected_dtype(s.dtype@, idxs)->Struct_1);
                    }
                    Ok(ArrayData::Struct(p))
                },
                Err(e) => {
                    proof {
                        if all_resolve(names, fv) {
                            assert forall|k: int| 0 <= k < projection@.len() implies resolve_field(names, #[trigger] projection@[k]@) is Some by {
                                assert(resolve_field(names, fv[k]) is Some);
                            }
                        }
                    }
                    Err(e)
                },
            }
        },
        ArrayData::Chunked(c) => c.project(projection),
        _ => Err(VortexError::InvalidArgument),
    }
}

impl ChunkedArray {
    /// The projection of a chunked struct array: the chunks' projections, chunked. A field
    /// that the struct does not have is refused with `InvalidArgument`, as is a chunk that
    /// is not a struct array or chunks of such.
    #[verifier::rlimit(40)]
    pub fn project(&self, projection: &Vec<Field>) -> (r: Result<ArrayData, VortexError>)
        requires
            self.wf(),
            self.dtype@ is Struct,
        ensures
            r is Ok <==> all_resolve(self.dtype@->Struct_0, fields_view(projection@))
                && self.dtype@->Struct_0.len() == self.dtype@->Struct_1.len()
                && projections_concat(
                self.chunks@,
                resolved(self.dtype@->Struct_0, fields_view(projection@)),
                self.chunks@.len() as int,
            ) is Some,
            r is Err ==> r->Err_0 == VortexError::InvalidArgument,
            r is Ok ==> {
                let idxs = resolved(self.dtype@->Struct_0, fields_view(projection@));
                &&& r->Ok_0.wf()
                &&& r->Ok_0.elements() == projections_concat(
                    self.chunks@,
                    idxs,
                    self.chunks@.len() as int,
                )->Some_0
                &&& r->Ok_0.elements().len() == self.elements().len()
                &&& r->Ok_0.dtype_spec() == projected_dtype(self.dtype@, idxs)
            },
        decreases self, 0int,
    {
        let ghost names = self.dtype@->Struct_0;
        let ghost fv = fields_view(projection@);
        let ghost idxs = resolved(names, fv);
        let struct_dtype = match &self.dtype {
            DType::Struct(s, n) => {
                assert(names_view(s.names@).len() == s.names@.len());
                assert(dtypes_view(s.dtypes@).len() == s.dtypes@.len());
                assert(names_view(s.names@) == names);
                assert(dtypes_view(s.dtypes@) == self.dtype@->Struct_1);
                if s.names.len() != s.dtypes.len() {
                    return Err(VortexError::InvalidArgument);
                }
                match s.project(projection) {
                    Ok(p) => {
                        proof {
                            assert forall|k: int| 0 <= k < fv.len() implies resolve_field(names, #[trigger] fv[k]) is Some by {
                                assert(resolve_field(names, projection@[k]@) is Some);
                            }
                            assert forall|k: int| 0 <= k < idxs.len() implies names_view(p.names@)[k] == names[idxs[k]]
                                && dtypes_view(p.dtypes@)[k] == self.dtype@->Struct_1[idxs[k]] by {
                                assert(fv[k] == projection@[k]@);
                                lemma_resolve_bounds(names, fv[k]);
                                assert(p.names@[k]@ == s.names@[idxs[k]]@);
                                assert(p.dtypes@[k]@ == s.dtypes@[idxs[k]]@);
                                assert(names_view(s.names@)[idxs[k]] == s.names@[idxs[k]]@);
                                assert(dtypes_view(s.dtypes@)[idxs[k]] == s.dtypes@[idxs[k]]@);
                                assert(names_view(p.names@)[k] == p.names@[k]@);
                                assert(dtypes_view(p.dtypes@)[k] == p.dtypes@[k]@);
                            }
                            assert(names_view(p.names@) =~= projected_dtype(self.dtype@, idxs)->Struct_0);
                            assert(dtypes_view(p.dtypes@) =~= projected_dtype(self.dtype@, idxs)->Struct_1);
                        }
                        DType::Struct(p, *n)
                    },
                    Err(e) => {
                        proof {
                            if all_resolve(names, fv) {
                                assert forall|k: int| 0 <= k < projection@.len() implies resolve_field(names, #[trigger] projection@[k]@) is Some by {
                                    assert(fv[k] == projection@[k]@);
                                    assert(resolve_field(names, fv[k]) is Some);
                                }
                            }
                        }
                        return Err(e);
                    },
                }
            },
            _ => {
                return Err(VortexError::InvalidArgument);
            },
        };
        let n = self.chunks.len();
        let mut chunks: Vec<ArrayData> = Vec::new();
        let mut k: usize = 0;
        while k < n
            invariant
                self.wf(),
                self.dtype@ is Struct,
                names == self.dtype@->Struct_0,
                fv == fields_view(projection@),
                idxs == resolved(names, fv),
                all_resolve(names, fv),
                names.len() == self.dtype@->Struct_1.len(),
                n == self.chunks@.len(),
                k <= n,
                chunks@.len() == k,
                projections_concat(self.chunks@, idxs, k as int) == Some(
                    concat_elements(chunks@, k as int),
                ),
                concat_elements(chunks@, k as int).len() == concat_elements(self.chunks@, k as int).len(),
                forall|j: int| 0 <= j < k ==> (#[trigger] chunks@[j]).wf(),
                forall|j: int| 0 <= j < k ==> (#[trigger] chunks@[j]).dtype_spec() == projected_dtype(self.dtype@, idxs),
            decreases n - k,
        {
            proof {
                vstd::std_specs::vec::axiom_vec_index_decreases(self.chunks, k as int);
                assert(decreases_to!(*self => self.chunks));
                assert(self.chunks@[k as int].wf());
                assert(self.chunks@[k as int].dtype_spec() == self.dtype@);
            }
            match project_of(&self.chunks[k], projection) {
                Ok(c) => {
                    proof {
                        lemma_concat_push(chunks@, c);
                    }
                    chunks.push(c);
                },
                Err(e) => {
                    proof {
                        lemma_projections_concat_none(self.chunks@, idxs, k + 1, n as int);
                    }
                    return Err(e);
                },
            }
            k += 1;
        }
        proof {
            assert(self.chunk_ends@[n as int] == concat_elements(self.chunks@, n as int).len());
        }
        Ok(ArrayData::Chunked(ChunkedArray::from_chunks(chunks, struct_dtype)))
    }
}

} // verus!
