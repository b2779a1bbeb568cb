//! Checking at run time that an array is well formed.

use vstd::prelude::*;

use crate::array::{
    concat_elements, dtypes_of, lemma_concat_len_monotone, non_decreasing, strictly_increasing,
    ArrayData, BoolArray, ChunkedArray, ExtensionArray, ListArray, PrimitiveArray, SparseArray,
    StructArray, VarBinViewArray,
};
use crate::canonical::Canonical;
use crate::dtype::{dtypes_view, names_view, DType};
use crate::validity::Validity;

verus! {

/// Whether a validity array, if there is one, has `len` flags.
fn validity_fits(validity: &Validity, len: usize) -> (r: bool)
    ensures
        r == validity.wf(len as int),
{
    match validity {
        Validity::Array(v) => v.len() == len,
        _ => true,
    }
}

/// Whether offsets never decrease.
fn check_non_decreasing(offsets: &Vec<usize>) -> (r: bool)
    ensures
        r == non_decreasing(offsets@),
{
    let n = offsets.len();
    let mut i: usize = 1;
    while i < n
        invariant
            1 <= i || n == 0,
            i <= n || n == 0,
            n == offsets@.len(),
            forall|a: int, b: int| 0 <= a <= b < i ==> offsets@[a] <= offsets@[b],
        decreases n - i,
    {
        if offsets[i - 1] > offsets[i] {
            return false;
        }
        proof {
            assert forall|a: int, b: int| 0 <= a <= b < i + 1 implies offsets@[a] <= offsets@[b] by {
                if b == i && a < i {
                    assert(offsets@[a] <= offsets@[i - 1]);
                }
            }
        }
        i += 1;
    }
    true
}

/// Whether indices strictly increase and lie in `lo..hi`.
fn check_indices(indices: &Vec<usize>, lo: usize, hi: usize) -> (r: bool)
    ensures
        r == (strictly_increasing(indices@) && forall|k: int| 0 <= k < indices@.len() ==> lo <= (#[trigger] indices@[k]) < hi),
{
    let n = indices.len();
    let mut i: usize = 0;
    while i < n
        invariant
            i <= n,
            n == indices@.len(),
            forall|a: int, b: int| 0 <= a < b < i ==> indices@[a] < indices@[b],
            forall|k: int| 0 <= k < i ==> lo <= (#[trigger] indices@[k]) < hi,
        decreases n - i,
    {
        let idx = indices[i];
        if idx < lo || idx >= hi {
            return false;
        }
        if i > 0 && indices[i - 1] >= idx {
            proof {
                if strictly_increasing(indices@) {
                    assert(indices@[i - 1] < indices@[i as int]);
                }
            }
            return false;
        }
        proof {
            assert forall|a: int, b: int| 0 <= a < b < i + 1 implies indices@[a] < indices@[b] by {
                if b == i && a < i - 1 {
                    assert(indices@[a] < indices@[i - 1]);
                }
            }
        }
        i += 1;
    }
    true
}

impl StructArray {
    /// Whether the struct array is well formed.
    #[verifier::rlimit(40)]
    pub fn validate(&self) -> (r: bool)
        ensures
            r == self.wf(),
        decreases self,
    {
        let s = match &self.dtype {
            DType::Struct(s, n) => {
                if *n != self.validity.nullability() {
                    return false;
                }
                s
            },
            _ => {
                return false;
            },
        };
        proof {
            assert(names_view(s.names@).len() == s.names@.len());
            assert(dtypes_view(s.dtypes@).len() == s.dtypes@.len());
            assert(dtypes_of(self.fields@).len() == self.fields@.len());
        }
        if s.names.len() != self.fields.len() || s.dtypes.len() != self.fields.len() {
            return false;
        }
        if !validity_fits(&self.validity, self.len) {
            return false;
        }
        let mut f: usize = 0;
        while f < self.fields.len()
            invariant
                f <= self.fields@.len(),
                s.dtypes@.len() == self.fields@.len(),
                self.dtype@ is Struct,
                self.dtype@->Struct_1 == dtypes_view(s.dtypes@),
                forall|j: int| 0 <= j < f ==> (#[trigger] self.fields@[j]).wf() && self.fields@[j].elements().len()
                    == self.len && self.fields@[j].dtype_spec() == s.dtypes@[j]@,
            decreases self.fields@.len() - f,
        {
            proof {
                vstd::std_specs::vec::axiom_vec_index_decreases(self.fields, f as int);
                assert(decreases_to!(*self => self.fields));
                assert(dtypes_view(s.dtypes@)[f as int] == s.dtypes@[f as int]@);
                assert(dtypes_of(self.fields@)[f as int] == self.fields@[f as int].dtype_spec());
            }
            let field = &self.fields[f];
            if !field.validate() {
                return false;
            }
            if field.len() != self.len {
                return false;
            }
            if !field.dtype().eq(&s.dtypes[f]) {
                return false;
            }
            f += 1;
        }
        proof {
            assert(dtypes_view(s.dtypes@) =~= dtypes_of(self.fields@)) by {
                assert forall|j: int| 0 <= j < self.fields@.len() implies dtypes_view(s.dtypes@)[j] == dtypes_of(
                    self.fields@,
                )[j] by {
                    assert(self.fields@[j].dtype_spec() == s.dtypes@[j]@);
                }
            }
        }
        true
    }
}

impl ChunkedArray {
    /// Whether the chunked array is well formed.
    #[verifier::rlimit(40)]
    pub fn validate(&self) -> (r: bool)
        ensures
            r == self.wf(),
        decreases self,
    {
        let n = self.chunks.len();
        if self.chunk_ends.len() == 0 || self.chunk_ends.len() - 1 != n {
            return false;
        }
        if self.chunk_ends[0] != 0 {
            assert(concat_elements(self.chunks@, 0).len() == 0);
            return false;
        }
        let mut k: usize = 0;
        while k < n
            invariant
                n == self.chunks@.len(),
                self.chunk_ends@.len() == n + 1,
                k <= n,
                forall|j: int| 0 <= j < k ==> (#[trigger] self.chunks@[j]).wf() && self.chunks@[j].dtype_spec()
                    == self.dtype@,
                forall|j: int| 0 <= j <= k ==> (#[trigger] self.chunk_ends@[j]) == concat_elements(
                    self.chunks@,
                    j,
                ).len(),
                self.chunk_ends@[k as int] <= usize::MAX,
            decreases n - k,
        {
            proof {
                vstd::std_specs::vec::axiom_vec_index_decreases(self.chunks, k as int);
                assert(decreases_to!(*self => self.chunks));
            }
            let chunk = &self.chunks[k];
            if !chunk.validate() {
                return false;
            }
            if !chunk.dtype().eq(&self.dtype) {
                return false;
            }
            let len = chunk.len();
            let begin = self.chunk_ends[k];
            let end = self.chunk_ends[k + 1];
            if end < begin || end - begin != len as u64 {
                proof {
                    if self.wf_shallow() {
                        assert(self.chunk_ends@[k + 1] == concat_elements(self.chunks@, k + 1).len());
                    }
                }
                return false;
            }
            if end > usize::MAX as u64 {
                proof {
                    if self.wf_shallow() {
                        lemma_concat_len_monotone(self.chunks@, k + 1, n as int);
                        assert(self.chunk_ends@[n as int] == concat_elements(self.chunks@, n as int).len());
                        assert(self.chunk_ends@[k + 1] == concat_elements(self.chunks@, k + 1).len());
                    }
                }
                return false;
            }
            k += 1;
        }
        true
    }
}

impl SparseArray {
    /// Whether the sparse array is well formed.
    pub fn validate(&self) -> (r: bool)
        ensures
            r == self.wf(),
        decreases self,
    {
        if !self.values.validate() {
            return false;
        }
        if self.indices.len() != self.values.len() {
            return false;
        }
        if self.len > usize::MAX - self.indices_offset {
            return false;
        }
        if !check_indices(&self.indices, self.indices_offset, self.indices_offset + self.len) {
            return false;
        }
        self.fill.dtype.eq(&self.values.dtype())
    }
}

impl ListArray {
    /// Whether the list array is well formed.
    pub fn validate(&self) -> (r: bool)
        ensures
            r == self.wf(),
        decreases self,
    {
        let (element, n) = match &self.dtype {
            DType::List(e, n) => (e, *n),
            _ => {
                return false;
            },
        };
        if !self.elements.validate() {
            return false;
        }
        if !(**element).eq(&self.elements.dtype()) {
            return false;
        }
        if n != self.validity.nullability() {
            return false;
        }
        let count = self.offsets.len();
        if count == 0 {
            return false;
        }
        if !check_non_decreasing(&self.offsets) {
            return false;
        }
        if self.offsets[count - 1] > self.elements.len() {
            return false;
        }
        if !self.offsets_ptype.is_int() || !self.offsets_ptype.in_range(
            self.offsets[count - 1] as i128,
        ) {
            return false;
        }
        validity_fits(&self.validity, count - 1)
    }
}

impl BoolArray {
    /// Whether the boolean array is well formed.
    pub fn validate(&self) -> (r: bool)
        ensures
            r == self.wf(),
    {
        validity_fits(&self.validity, self.values.len())
    }
}

impl PrimitiveArray {
    /// Whether the primitive array is well formed.
    pub fn validate(&self) -> (r: bool)
        ensures
            r == self.wf(),
    {
        if !validity_fits(&self.validity, self.values.len()) {
            return false;
        }
        let mut i: usize = 0;
        while i < self.values.len()
            invariant
                i <= self.values@.len(),
                forall|j: int| 0 <= j < i ==> self.ptype.holds(#[trigger] self.values@[j] as int),
            decreases self.values@.len() - i,
        {
            if !self.ptype.in_range(self.values[i]) {
                return false;
            }
            i += 1;
        }
        true
    }
}

impl VarBinViewArray {
    /// Whether the view array is well formed.
    pub fn validate(&self) -> (r: bool)
        ensures
            r == self.wf(),
    {
        match &self.dtype {
            DType::Utf8(_) | DType::Binary(_) => {},
            _ => {
                return false;
            },
        }
        if self.dtype.nullability() != self.validity.nullability() {
            return false;
        }
        validity_fits(&self.validity, self.values.len())
    }
}

impl ExtensionArray {
    /// Whether the extension array is well formed.
    pub fn validate(&self) -> (r: bool)
        ensures
            r == self.wf(),
        decreases self,
    {
        match &self.dtype {
            DType::Extension(e) => {
                if !(*e.storage).eq(&self.storage.dtype()) {
                    return false;
                }
            },
            _ => {
                return false;
            },
        }
        self.storage.validate()
    }
}

impl Canonical {
    /// Whether the canonical array is well formed.
    pub fn validate(&self) -> (r: bool)
        ensures
            r == self.array().wf(),
    {
        match self {
            Canonical::Null(_) => true,
            Canonical::Bool(a) => a.validate(),
            Canonical::Primitive(a) => a.validate(),
            Canonical::Struct(a) => a.validate(),
            Canonical::List(a) => a.validate(),
            Canonical::VarBinView(a) => a.validate(),
            Canonical::Extension(a) => a.validate(),
        }
    }
}

impl ArrayData {
    /// Whether the array is well formed: whether it holds what every kernel asks of its
    /// input.
    #[verifier::loop_isolation(false)]
    pub fn validate(&self) -> (r: bool)
        ensures
            r == self.wf(),
        decreases self,
    {
        match self {
            ArrayData::Null(_) => true,
            ArrayData::Constant(_) => true,
            ArrayData::Bool(a) => a.validate(),
            ArrayData::Primitive(a) => a.validate(),
            ArrayData::VarBin(a) => {
                match &a.dtype {
                    DType::Utf8(_) | DType::Binary(_) => {},
                    _ => {
                        return false;
                    },
                }
                if a.dtype.nullability() != a.validity.nullability() {
                    return false;
                }
                if !a.offsets_ptype.is_int() {
                    return false;
                }
                let n = a.offsets.len();
                if n == 0 {
                    return false;
                }
                if !check_non_decreasing(&a.offsets) {
                    return false;
                }
                if a.offsets[n - 1] > a.bytes.len() {
                    return false;
                }
                let mut i: usize = 0;
                while i < n
                    invariant
                        i <= n,
                        n == a.offsets@.len(),
                        forall|j: int| 0 <= j < i ==> a.offsets_ptype.holds(#[trigger] a.offsets@[j] as int),
                    decreases n - i,
                {
                    if !a.offsets_ptype.in_range(a.offsets[i] as i128) {
                        return false;
                    }
                    i += 1;
                }
                validity_fits(&a.validity, n - 1)
            },
            ArrayData::VarBinView(a) => a.validate(),
            ArrayData::Struct(a) => a.validate(),
            ArrayData::List(a) => a.validate(),
            ArrayData::Extension(a) => a.validate(),
            ArrayData::Chunked(a) => a.validate(),
            ArrayData::Sparse(a) => a.validate(),
        }
    }
}

} // verus!
