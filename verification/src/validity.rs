//! Which elements of an array are present.

use vstd::prelude::*;

use crate::dtype::Nullability;

verus! {

/// The validity of an array's elements, whatever the array's encoding.
#[derive(Debug)]
pub enum Validity {
    /// The type admits no nulls.
    NonNullable,
    /// The type admits nulls and there is none.
    AllValid,
    /// Every element is null.
    AllInvalid,
    /// One flag per element: `true` where the element is present.
    Array(Vec<bool>),
}

impl Validity {
    /// A flag array has one flag per element.
    pub open spec fn wf(self, len: int) -> bool {
        self is Array ==> self->Array_0@.len() == len
    }

    /// Whether element `i` is present.
    pub open spec fn valid_at(self, i: int) -> bool {
        match self {
            Validity::NonNullable | Validity::AllValid => true,
            Validity::AllInvalid => false,
            Validity::Array(v) => 0 <= i < v@.len() && v@[i],
        }
    }

    /// The flags of the first `len` elements.
    pub open spec fn bits(self, len: int) -> Seq<bool> {
        Seq::new(len as nat, |i: int| self.valid_at(i))
    }

    pub open spec fn spec_nullability(&self) -> Nullability {
        match self {
            Validity::NonNullable => Nullability::NonNullable,
            _ => Nullability::Nullable,
        }
    }

    #[verifier::when_used_as_spec(spec_nullability)]
    pub fn nullability(&self) -> (r: Nullability)
        ensures r == self.spec_nullability(),
    {
        match self {
            Validity::NonNullable => Nullability::NonNullable,
            _ => Nullability::Nullable,
        }
    }

    /// The validity that a type of the given nullability has when no element is null.
    pub fn all_valid(nullability: Nullability) -> (r: Validity)
        ensures
            r.spec_nullability() == nullability,
            !(r is Array),
            forall|i: int| r.valid_at(i),
    {
        match nullability {
            Nullability::NonNullable => Validity::NonNullable,
            Nullability::Nullable => Validity::AllValid,
        }
    }

    pub fn is_valid(&self, index: usize) -> (r: bool)
        requires self is Array ==> index < self->Array_0@.len(),
        ensures r == self.valid_at(index as int),
    {
        match self {
            Validity::NonNullable | Validity::AllValid => true,
            Validity::AllInvalid => false,
            Validity::Array(v) => v[index],
        }
    }

    /// A copy.
    pub fn clone(&self) -> (r: Validity)
        ensures
            r.spec_nullability() == self.spec_nullability(),
            forall|len: int| r.wf(len) == self.wf(len),
            forall|i: int| r.valid_at(i) == self.valid_at(i),
            r is Array == self is Array,
    {
        match self {
            Validity::NonNullable => Validity::NonNullable,
            Validity::AllValid => Validity::AllValid,
            Validity::AllInvalid => Validity::AllInvalid,
            Validity::Array(v) => Validity::Array(v.clone()),
        }
    }

    /// The validity of elements `start..stop`.
    pub fn slice(&self, start: usize, stop: usize) -> (r: Validity)
        requires
            start <= stop,
            self is Array ==> stop <= self->Array_0@.len(),
        ensures
            r.spec_nullability() == self.spec_nullability(),
            r.wf(stop - start),
            forall|i: int| 0 <= i < stop - start ==> r.valid_at(i) == self.valid_at(start + i),
    {
        match self {
            Validity::NonNullable => Validity::NonNullable,
            Validity::AllValid => Validity::AllValid,
            Validity::AllInvalid => Validity::AllInvalid,
            Validity::Array(v) => {
                let mut out: Vec<bool> = Vec::new();
                let mut i: usize = start;
                while i < stop
                    invariant
                        start <= i <= stop,
                        stop <= v@.len(),
                        out@.len() == i - start,
                        forall|j: int| 0 <= j < i - start ==> out@[j] == v@[start + j],
                    decreases stop - i,
                {
                    out.push(v[i]);
                    i += 1;
                }
                Validity::Array(out)
            },
        }
    }

    /// The validity of the elements at `indices`, in that order.
    pub fn take(&self, indices: &Vec<usize>) -> (r: Validity)
        requires
            self is Array ==> forall|k: int|
                0 <= k < indices@.len() ==> indices@[k] < self->Array_0@.len(),
        ensures
            r.spec_nullability() == self.spec_nullability(),
            r.wf(indices@.len() as int),
            forall|k: int|
                0 <= k < indices@.len() ==> r.valid_at(k) == self.valid_at(indices@[k] as int),
    {
        match self {
            Validity::NonNullable => Validity::NonNullable,
            Validity::AllValid => Validity::AllValid,
            Validity::AllInvalid => Validity::AllInvalid,
            Validity::Array(v) => {
                let mut out: Vec<bool> = Vec::new();
                let mut k: usize = 0;
                while k < indices.len()
                    invariant
                        k <= indices@.len(),
                        forall|j: int| 0 <= j < indices@.len() ==> indices@[j] < v@.len(),
                        out@.len() == k,
                        forall|j: int| 0 <= j < k ==> out@[j] == v@[indices@[j] as int],
                    decreases indices@.len() - k,
                {
                    out.push(v[indices[k]]);
                    k += 1;
                }
                Validity::Array(out)
            },
        }
    }

    /// One flag per element, for the first `len` elements.
    pub fn to_bools(&self, len: usize) -> (r: Vec<bool>)
        requires self.wf(len as int),
        ensures r@ == self.bits(len as int),
    {
        let mut out: Vec<bool> = Vec::new();
        let mut i: usize = 0;
        while i < len
            invariant
                i <= len,
                self.wf(len as int),
                out@.len() == i,
                forall|j: int| 0 <= j < i ==> out@[j] == self.valid_at(j),
            decreases len - i,
        {
            out.push(self.is_valid(i));
            i += 1;
        }
        assert(out@ =~= self.bits(len as int));
        out
    }

    /// The validity of a nullable array from one flag per element, in its shortest form:
    /// `AllValid` where every flag is set, `AllInvalid` where none is, else the flags.
    pub fn from_iter(flags: Vec<bool>) -> (r: Validity)
        ensures
            r.spec_nullability() == Nullability::Nullable,
            r.wf(flags@.len() as int),
            forall|i: int| 0 <= i < flags@.len() ==> r.valid_at(i) == flags@[i],
            r is AllValid <==> forall|i: int| 0 <= i < flags@.len() ==> flags@[i],
            r is AllInvalid <==> (exists|i: int| 0 <= i < flags@.len() && !flags@[i]) && forall|i: int|
                0 <= i < flags@.len() ==> !flags@[i],
    {
        let mut all = true;
        let mut none = true;
        let mut i: usize = 0;
        while i < flags.len()
            invariant
                i <= flags@.len(),
                all == forall|j: int| 0 <= j < i ==> flags@[j],
                none == forall|j: int| 0 <= j < i ==> !flags@[j],
            decreases flags@.len() - i,
        {
            if flags[i] {
                none = false;
            } else {
                all = false;
            }
            i += 1;
        }
        if all {
            Validity::AllValid
        } else if none {
            Validity::AllInvalid
        } else {
            Validity::Array(flags)
        }
    }

    /// The validity of a nullable array from one flag per element.
    pub fn from_bools(flags: Vec<bool>) -> (r: Validity)
        ensures
            r.spec_nullability() == Nullability::Nullable,
            r.wf(flags@.len() as int),
            forall|i: int| 0 <= i < flags@.len() ==> r.valid_at(i) == flags@[i],
    {
        Validity::Array(flags)
    }
}

} // verus!
